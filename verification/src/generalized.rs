//! Generalized inputs: a byte input broken into runs of real bytes and gap
//! markers (insertion points), as used to generalize testcases into rules.
//!
//! The abstract model of an item is `Option<Seq<u8>>`: a run of bytes, or
//! `None` for a gap.  A generalized input always begins and ends with a gap,
//! byte runs are nonempty, and two byte runs are never adjacent.

use vstd::prelude::*;

verus! {

/// An item of the generalized input: real bytes, or an insertion point.
#[derive(Clone, Debug, PartialEq, Eq, Hash)]
pub enum GeneralizedItem {
    /// Real bytes
    Bytes(Vec<u8>),
    /// An insertion point
    Gap,
}

impl View for GeneralizedItem {
    type V = Option<Seq<u8>>;

    closed spec fn view(&self) -> Option<Seq<u8>> {
        match self {
            GeneralizedItem::Bytes(b) => Some(b@),
            GeneralizedItem::Gap => None,
        }
    }
}

/// The byte value behind a `Some` entry.
pub open spec fn some_of(o: Option<u8>) -> u8 {
    match o {
        Some(b) => b,
        None => 0,
    }
}

/// How many leading entries of `v` are `Some`.
pub open spec fn some_prefix_len(v: Seq<Option<u8>>) -> int
    decreases v.len(),
{
    if v.len() == 0 || v[0] is None {
        0
    } else {
        1 + some_prefix_len(v.skip(1))
    }
}

/// Bounds of the leading-`Some` count: it never exceeds the length, and is
/// positive exactly when the sequence starts with a `Some`.
pub proof fn lemma_some_prefix_len_bounds(v: Seq<Option<u8>>)
    ensures
        0 <= some_prefix_len(v) <= v.len(),
        v.len() > 0 && v[0] is Some ==> 1 <= some_prefix_len(v),
    decreases v.len(),
{
    if v.len() > 0 && v[0] is Some {
        lemma_some_prefix_len_bounds(v.skip(1));
    }
}

/// The runs of `v`: each `None` becomes a gap, each maximal run of `Some`
/// entries becomes one byte run.
pub open spec fn runs_model(v: Seq<Option<u8>>) -> Seq<Option<Seq<u8>>>
    decreases v.len(),
    via runs_model_decreases
{
    if v.len() == 0 {
        Seq::empty()
    } else if v[0] is None {
        seq![None] + runs_model(v.skip(1))
    } else {
        let k = some_prefix_len(v);
        seq![Some(v.take(k).map_values(|o: Option<u8>| some_of(o)))] + runs_model(v.skip(k))
    }
}

#[via_fn]
proof fn runs_model_decreases(v: Seq<Option<u8>>) {
    if v.len() != 0 && v[0] is Some {
        lemma_some_prefix_len_bounds(v);
    }
}

/// The whole generalized form of `v`: a leading gap unless `v` itself starts
/// with one, the runs, and a trailing gap unless the runs already end in
/// one.
pub open spec fn gen_model(v: Seq<Option<u8>>) -> Seq<Option<Seq<u8>>> {
    let lead: Seq<Option<Seq<u8>>> = if v.len() == 0 || v[0] is Some {
        seq![None]
    } else {
        Seq::empty()
    };
    let trail: Seq<Option<Seq<u8>>> = if v.len() > 0 && v.last() is Some {
        seq![None]
    } else {
        Seq::empty()
    };
    lead + runs_model(v) + trail
}

/// Total byte length of a generalized form, counting each gap as one.
pub open spec fn model_len(s: Seq<Option<Seq<u8>>>) -> int
    decreases s.len(),
{
    if s.len() == 0 {
        0
    } else {
        model_len(s.drop_last()) + (match s.last() {
            Some(b) => b.len() as int,
            None => 1,
        })
    }
}

/// The real bytes of a generalized form, gaps skipped, in order.
pub open spec fn model_bytes(s: Seq<Option<Seq<u8>>>) -> Seq<u8>
    decreases s.len(),
{
    if s.len() == 0 {
        Seq::empty()
    } else {
        model_bytes(s.drop_last()) + (match s.last() {
            Some(b) => b,
            None => Seq::empty(),
        })
    }
}

/// Metadata holding the generalized form of an input.
pub struct GeneralizedInputMetadata {
    generalized: Vec<GeneralizedItem>,
}

impl View for GeneralizedInputMetadata {
    type V = Seq<Option<Seq<u8>>>;

    closed spec fn view(&self) -> Seq<Option<Seq<u8>>> {
        self.generalized@.map_values(|it: GeneralizedItem| it@)
    }
}

impl GeneralizedInputMetadata {
    /// The items themselves, for contracts relating them to the model.
    pub closed spec fn items(&self) -> Seq<GeneralizedItem> {
        self.generalized@
    }

    /// Wrap an item list as metadata, e.g. one read back from storage.
    pub fn from_items(items: Vec<GeneralizedItem>) -> (r: Self)
        ensures
            r.items() == items@,
            r@ == items@.map_values(|it: GeneralizedItem| it@),
    {
        GeneralizedInputMetadata { generalized: items }
    }

    /// Build the generalized form from per-byte options: `None` marks a gap,
    /// runs of `Some` bytes become byte runs, and the result is bracketed by
    /// gaps.
    pub fn generalized_from_options(v: &Vec<Option<u8>>) -> (r: Self)
        ensures
            r@ == gen_model(v@),
    {
        let mut items: Vec<GeneralizedItem> = Vec::new();
        let starts_some = if v.len() == 0 {
            true
        } else {
            v[0].is_some()
        };
        if starts_some {
            items.push(GeneralizedItem::Gap);
        }
        proof {
            assert(items@.map_values(|it: GeneralizedItem| it@) =~= (
            if v@.len() == 0 || v@[0] is Some {
                seq![None::<Seq<u8>>]
            } else {
                Seq::<Option<Seq<u8>>>::empty()
            }));
        }
        Self::push_runs(v, 0, &mut items);
        proof {
            assert(v@.skip(0) =~= v@);
        }
        let ghost with_runs = items@.map_values(|it: GeneralizedItem| it@);
        let ends_some = if v.len() == 0 {
            false
        } else {
            v[v.len() - 1].is_some()
        };
        if ends_some {
            items.push(GeneralizedItem::Gap);
            proof {
                assert(items@.map_values(|it: GeneralizedItem| it@) =~= with_runs + seq![
                    None::<Seq<u8>>,
                ]);
            }
        }
        let r = GeneralizedInputMetadata { generalized: items };
        proof {
            assert(r@ =~= gen_model(v@));
        }
        r
    }

    /// Append the runs of `v` from position `i` on to `out`.
    fn push_runs(v: &Vec<Option<u8>>, i: usize, out: &mut Vec<GeneralizedItem>)
        requires
            i <= v@.len(),
        ensures
            final(out)@.map_values(|it: GeneralizedItem| it@) == old(out)@.map_values(
                |it: GeneralizedItem| it@,
            ) + runs_model(v@.skip(i as int)),
        decreases v@.len() - i,
    {
        if i == v.len() {
            proof {
                assert(runs_model(v@.skip(i as int)) =~= Seq::<Option<Seq<u8>>>::empty());
                assert(out@.map_values(|it: GeneralizedItem| it@) =~= out@.map_values(
                    |it: GeneralizedItem| it@,
                ) + runs_model(v@.skip(i as int)));
            }
            return;
        }
        if v[i].is_none() {
            out.push(GeneralizedItem::Gap);
            let ghost mid = out@;
            Self::push_runs(v, i + 1, out);
            proof {
                assert(v@.skip(i as int).skip(1) =~= v@.skip(i + 1));
                assert(runs_model(v@.skip(i as int)) == seq![None::<Seq<u8>>] + runs_model(
                    v@.skip(i + 1),
                ));
                assert(mid.map_values(|it: GeneralizedItem| it@) =~= old(out)@.map_values(
                    |it: GeneralizedItem| it@,
                ) + seq![None::<Seq<u8>>]);
                assert(out@.map_values(|it: GeneralizedItem| it@) =~= old(out)@.map_values(
                    |it: GeneralizedItem| it@,
                ) + runs_model(v@.skip(i as int)));
            }
            return;
        }
        // collect the maximal run of real bytes starting at `i`
        let mut k: usize = i;
        let mut bytes: Vec<u8> = Vec::new();
        while k < v.len() && v[k].is_some()
            invariant
                i <= k <= v@.len(),
                forall|j: int| i <= j < k ==> (#[trigger] v@[j]) is Some,
                bytes@ == v@.subrange(i as int, k as int).map_values(
                    |o: Option<u8>| some_of(o),
                ),
            decreases v@.len() - k,
        {
            let b = match v[k] {
                Some(b) => b,
                None => 0,
            };
            bytes.push(b);
            proof {
                assert(v@.subrange(i as int, k + 1).drop_last() =~= v@.subrange(
                    i as int,
                    k as int,
                ));
                assert(bytes@ =~= v@.subrange(i as int, k + 1).map_values(
                    |o: Option<u8>| some_of(o),
                ));
            }
            k = k + 1;
        }
        proof {
            lemma_some_prefix_len(v@.skip(i as int), k - i);
            assert(v@.skip(i as int).take(k - i) =~= v@.subrange(i as int, k as int));
            assert(v@.skip(i as int).skip(k - i) =~= v@.skip(k as int));
        }
        out.push(GeneralizedItem::Bytes(bytes));
        let ghost mid = out@;
        Self::push_runs(v, k, out);
        proof {
            assert(runs_model(v@.skip(i as int)) == seq![
                Some(v@.skip(i as int).take(k - i).map_values(|o: Option<u8>| some_of(o))),
            ] + runs_model(v@.skip(k as int)));
            assert(mid.map_values(|it: GeneralizedItem| it@) =~= old(out)@.map_values(
                |it: GeneralizedItem| it@,
            ) + seq![Some(v@.subrange(i as int, k as int).map_values(|o: Option<u8>| some_of(o)))]);
            assert(out@.map_values(|it: GeneralizedItem| it@) =~= old(out)@.map_values(
                |it: GeneralizedItem| it@,
            ) + runs_model(v@.skip(i as int)));
        }
    }

    /// Total size of the generalized input, counting each gap as one byte.
    pub fn generalized_len(&self) -> (n: usize)
        requires
            model_len(self@) <= usize::MAX,
        ensures
            n == model_len(self@),
    {
        let m = self.generalized.len();
        let mut n: usize = 0;
        let mut i: usize = 0;
        while i < m
            invariant
                m == self.items().len(),
                i <= m,
                self@ == self.items().map_values(|it: GeneralizedItem| it@),
                model_len(self@) <= usize::MAX,
                n == model_len(self@.take(i as int)),
            decreases m - i,
        {
            proof {
                assert(self@.take(i + 1).drop_last() =~= self@.take(i as int));
                assert(self@.take(i + 1).last() == self.items()[i as int]@);
                lemma_model_len_prefix(self@, i + 1);
            }
            match &self.generalized[i] {
                GeneralizedItem::Bytes(b) => {
                    n = n + b.len();
                },
                GeneralizedItem::Gap => {
                    n = n + 1;
                },
            }
            i = i + 1;
        }
        proof {
            assert(self@.take(m as int) =~= self@);
        }
        n
    }

    /// The real bytes of the generalized input, gaps skipped.
    pub fn generalized_to_bytes(&self) -> (r: Vec<u8>)
        ensures
            r@ == model_bytes(self@),
    {
        let m = self.generalized.len();
        let mut r: Vec<u8> = Vec::new();
        let mut i: usize = 0;
        proof {
            assert(r@ =~= model_bytes(self@.take(0)));
        }
        while i < m
            invariant
                m == self.items().len(),
                i <= m,
                self@ == self.items().map_values(|it: GeneralizedItem| it@),
                r@ == model_bytes(self@.take(i as int)),
            decreases m - i,
        {
            proof {
                assert(self@.take(i + 1).drop_last() =~= self@.take(i as int));
                assert(self@.take(i + 1).last() == self.items()[i as int]@);
            }
            match &self.generalized[i] {
                GeneralizedItem::Bytes(b) => {
                    let blen = b.len();
                    let mut j: usize = 0;
                    while j < blen
                        invariant
                            blen == b@.len(),
                            j <= blen,
                            r@ == model_bytes(self@.take(i as int)) + b@.take(j as int),
                            self@.take(i + 1).drop_last() == self@.take(i as int),
                            self@.take(i + 1).last() == Some(b@),
                            i < self@.len(),
                        decreases blen - j,
                    {
                        r.push(b[j]);
                        proof {
                            assert(b@.take(j + 1) =~= b@.take(j as int).push(b@[j as int]));
                            assert(r@ =~= model_bytes(self@.take(i as int)) + b@.take(j + 1));
                        }
                        j = j + 1;
                    }
                    proof {
                        assert(b@.take(blen as int) =~= b@);
                        assert(r@ =~= model_bytes(self@.take(i + 1)));
                    }
                },
                GeneralizedItem::Gap => {
                    proof {
                        assert(r@ =~= model_bytes(self@.take(i + 1)));
                    }
                },
            }
            i = i + 1;
        }
        proof {
            assert(self@.take(m as int) =~= self@);
        }
        r
    }

    /// The items of the generalized input.
    pub fn generalized(&self) -> (r: &Vec<GeneralizedItem>)
        ensures
            r@ == self.items(),
            r@.map_values(|it: GeneralizedItem| it@) == self@,
    {
        &self.generalized
    }

    /// The items of the generalized input, mutably; the metadata follows
    /// whatever the caller does with them.
    pub fn generalized_mut(&mut self) -> (r: &mut Vec<GeneralizedItem>)
        ensures
            (*r)@ == old(self).items(),
            final(self).items() == (*final(r))@,
    {
        &mut self.generalized
    }
}

/// The count of leading `Some` entries equals the position of the first
/// `None`, as a scan finds it.
proof fn lemma_some_prefix_len(s: Seq<Option<u8>>, j: int)
    requires
        0 <= j <= s.len(),
        forall|idx: int| 0 <= idx < j ==> (#[trigger] s[idx]) is Some,
        j == s.len() || s[j] is None,
    ensures
        some_prefix_len(s) == j,
    decreases j,
{
    if j == 0 {
    } else {
        assert(s[0] is Some);
        lemma_some_prefix_len(s.skip(1), j - 1);
    }
}

/// `model_len` of a nonempty prefix grows monotonically, so every partial
/// sum fits when the total does.
proof fn lemma_model_len_prefix(s: Seq<Option<Seq<u8>>>, i: int)
    requires
        0 <= i <= s.len(),
    ensures
        0 <= model_len(s.take(i)),
        model_len(s.take(i)) <= model_len(s),
    decreases s.len(),
{
    if s.len() == 0 {
        assert(s.take(i) =~= s);
    } else if i == s.len() {
        assert(s.take(i) =~= s);
        lemma_model_len_prefix(s.drop_last(), i - 1);
        assert(s.drop_last().take(i - 1) =~= s.drop_last());
    } else {
        lemma_model_len_prefix(s.drop_last(), i);
        assert(s.drop_last().take(i) =~= s.take(i));
    }
}

} // verus!
