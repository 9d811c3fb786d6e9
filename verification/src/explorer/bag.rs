//! # Resource bag
//!
//! Stores resources collected by Jebediah during exploration.
//!
//! The resources are kept by kind, in the order in which the game declares
//! the kinds. Mathematically the bag is two sequences of counts, one per
//! basic kind and one per complex kind.

use vstd::prelude::*;
use common_game::components::resource::{BasicResource, ComplexResource};
use super::resources::{
    BasicKind, ComplexKind, ResourceKind, basic_slot, complex_slot, basic_at, complex_at,
    basic_kind_of, complex_kind_of, kind_of_basic, kind_of_complex, BASIC_KINDS, COMPLEX_KINDS,
};

verus! {

/// The summary entries of the basic kinds, one per kind, with its count.
pub open spec fn basic_entries(counts: Seq<usize>) -> Seq<(ResourceKind, usize)> {
    Seq::new(counts.len(), |i: int| (ResourceKind::Basic(basic_at(i)), counts[i]))
}

/// The summary entries of the complex kinds, one per kind, with its count.
pub open spec fn complex_entries(counts: Seq<usize>) -> Seq<(ResourceKind, usize)> {
    Seq::new(counts.len(), |i: int| (ResourceKind::Complex(complex_at(i)), counts[i]))
}

/// An entry that counts at least one resource.
pub open spec fn held(entry: (ResourceKind, usize)) -> bool {
    entry.1 > 0
}

/// The entries of `s` that count at least one resource, in order.
pub open spec fn held_only(s: Seq<(ResourceKind, usize)>) -> Seq<(ResourceKind, usize)> {
    s.filter(|e: (ResourceKind, usize)| held(e))
}

/// The bag summary: every kind held at least once with its count, basic
/// kinds first, each group in the game's order.
pub open spec fn summary_of(basic: Seq<usize>, complex: Seq<usize>) -> Seq<(ResourceKind, usize)> {
    held_only(basic_entries(basic)) + held_only(complex_entries(complex))
}

pub struct JebBag {
    basic: Vec<Vec<BasicResource>>,
    complex: Vec<Vec<ComplexResource>>,
}

impl JebBag {
    /// How many resources of each basic kind the bag holds, by place.
    pub closed spec fn basic_counts(&self) -> Seq<usize> {
        Seq::new(self.basic@.len(), |i: int| self.basic@[i].len())
    }

    /// How many resources of each complex kind the bag holds, by place.
    pub closed spec fn complex_counts(&self) -> Seq<usize> {
        Seq::new(self.complex@.len(), |i: int| self.complex@[i].len())
    }

    /// One count per kind.
    pub open spec fn wf(&self) -> bool {
        &&& self.basic_counts().len() == BASIC_KINDS
        &&& self.complex_counts().len() == COMPLEX_KINDS
    }

    /// The empty bag.
    pub fn new() -> (bag: Self)
        ensures
            bag.wf(),
            bag.basic_counts() == Seq::new(BASIC_KINDS as nat, |i: int| 0usize),
            bag.complex_counts() == Seq::new(COMPLEX_KINDS as nat, |i: int| 0usize),
    {
        let mut basic: Vec<Vec<BasicResource>> = Vec::new();
        let mut i: usize = 0;
        while i < BASIC_KINDS
            invariant
                i <= BASIC_KINDS,
                basic@.len() == i,
                forall|k: int| 0 <= k < i ==> (#[trigger] basic@[k]).len() == 0,
            decreases BASIC_KINDS - i,
        {
            basic.push(Vec::new());
            i = i + 1;
        }
        let mut complex: Vec<Vec<ComplexResource>> = Vec::new();
        let mut i: usize = 0;
        while i < COMPLEX_KINDS
            invariant
                i <= COMPLEX_KINDS,
                complex@.len() == i,
                forall|k: int| 0 <= k < i ==> (#[trigger] complex@[k]).len() == 0,
            decreases COMPLEX_KINDS - i,
        {
            complex.push(Vec::new());
            i = i + 1;
        }
        let bag = Self { basic, complex };
        assert(bag.basic_counts() =~= Seq::new(BASIC_KINDS as nat, |i: int| 0usize));
        assert(bag.complex_counts() =~= Seq::new(COMPLEX_KINDS as nat, |i: int| 0usize));
        bag
    }

    /// Puts a basic resource of kind `kind` in the bag.
    pub fn store_basic(&mut self, kind: BasicKind, resource: BasicResource)
        requires
            old(self).wf(),
            old(self).basic_counts()[basic_slot(kind)] < usize::MAX,
        ensures
            final(self).wf(),
            final(self).basic_counts() == old(self).basic_counts().update(
                basic_slot(kind),
                (old(self).basic_counts()[basic_slot(kind)] + 1) as usize,
            ),
            final(self).complex_counts() == old(self).complex_counts(),
    {
        let slot = kind.slot();
        let mut items = self.basic.remove(slot);
        items.push(resource);
        self.basic.insert(slot, items);
        assert(self.basic_counts() =~= old(self).basic_counts().update(
            basic_slot(kind),
            (old(self).basic_counts()[basic_slot(kind)] + 1) as usize,
        ));
        assert(self.complex_counts() =~= old(self).complex_counts());
    }

    /// Puts a complex resource of kind `kind` in the bag.
    pub fn store_complex(&mut self, kind: ComplexKind, resource: ComplexResource)
        requires
            old(self).wf(),
            old(self).complex_counts()[complex_slot(kind)] < usize::MAX,
        ensures
            final(self).wf(),
            final(self).complex_counts() == old(self).complex_counts().update(
                complex_slot(kind),
                (old(self).complex_counts()[complex_slot(kind)] + 1) as usize,
            ),
            final(self).basic_counts() == old(self).basic_counts(),
    {
        let slot = kind.slot();
        let mut items = self.complex.remove(slot);
        items.push(resource);
        self.complex.insert(slot, items);
        assert(self.complex_counts() =~= old(self).complex_counts().update(
            complex_slot(kind),
            (old(self).complex_counts()[complex_slot(kind)] + 1) as usize,
        ));
        assert(self.basic_counts() =~= old(self).basic_counts());
    }

    /// Puts a basic resource in the bag, under its own kind.
    pub fn add_basic(&mut self, resource: BasicResource)
        requires
            old(self).wf(),
            old(self).basic_counts()[basic_slot(kind_of_basic(resource))] < usize::MAX,
        ensures
            final(self).wf(),
            final(self).basic_counts() == old(self).basic_counts().update(
                basic_slot(kind_of_basic(resource)),
                (old(self).basic_counts()[basic_slot(kind_of_basic(resource))] + 1) as usize,
            ),
            final(self).complex_counts() == old(self).complex_counts(),
    {
        let kind = basic_kind_of(&resource);
        self.store_basic(kind, resource);
    }

    /// Puts a complex resource in the bag, under its own kind.
    pub fn add_complex(&mut self, resource: ComplexResource)
        requires
            old(self).wf(),
            old(self).complex_counts()[complex_slot(kind_of_complex(resource))] < usize::MAX,
        ensures
            final(self).wf(),
            final(self).complex_counts() == old(self).complex_counts().update(
                complex_slot(kind_of_complex(resource)),
                (old(self).complex_counts()[complex_slot(kind_of_complex(resource))] + 1) as usize,
            ),
            final(self).basic_counts() == old(self).basic_counts(),
    {
        let kind = complex_kind_of(&resource);
        self.store_complex(kind, resource);
    }

    pub fn count_basic(&self, kind: BasicKind) -> (n: usize)
        requires
            self.wf(),
        ensures
            n == self.basic_counts()[basic_slot(kind)],
    {
        self.basic[kind.slot()].len()
    }

    pub fn count_complex(&self, kind: ComplexKind) -> (n: usize)
        requires
            self.wf(),
        ensures
            n == self.complex_counts()[complex_slot(kind)],
    {
        self.complex[kind.slot()].len()
    }

    /// Every kind held, with how many resources of it the bag holds.
    pub fn summarize(&self) -> (out: Vec<(ResourceKind, usize)>)
        requires
            self.wf(),
        ensures
            out@ == summary_of(self.basic_counts(), self.complex_counts()),
    {
        reveal(Seq::filter);
        let ghost bs = basic_entries(self.basic_counts());
        let ghost cs = complex_entries(self.complex_counts());
        let mut out: Vec<(ResourceKind, usize)> = Vec::new();
        let mut i: usize = 0;
        while i < BASIC_KINDS
            invariant
                self.wf(),
                i <= BASIC_KINDS,
                bs == basic_entries(self.basic_counts()),
                out@ == held_only(bs.take(i as int)),
            decreases BASIC_KINDS - i,
        {
            let n = self.basic[i].len();
            proof {
                assert(bs.take(i + 1).drop_last() =~= bs.take(i as int));
                assert(bs.take(i + 1).last() == bs[i as int]);
            }
            if n > 0 {
                out.push((ResourceKind::Basic(BasicKind::at(i)), n));
            }
            proof {
                reveal(Seq::filter);
                let t = bs.take(i + 1);
                assert(t.len() == i + 1);
                assert(bs[i as int] == (ResourceKind::Basic(basic_at(i as int)), n));
                assert(held(t.last()) == (n > 0));
                assert(held_only(t) == (if held(t.last()) {
                    held_only(t.drop_last()).push(t.last())
                } else {
                    held_only(t.drop_last())
                }));
                assert(out@ =~= held_only(bs.take(i + 1)));
            }
            i = i + 1;
        }
        proof {
            assert(bs.take(BASIC_KINDS as int) =~= bs);
        }
        let ghost first_part = out@;
        let mut i: usize = 0;
        while i < COMPLEX_KINDS
            invariant
                self.wf(),
                i <= COMPLEX_KINDS,
                cs == complex_entries(self.complex_counts()),
                first_part == held_only(bs),
                out@ == first_part + held_only(cs.take(i as int)),
            decreases COMPLEX_KINDS - i,
        {
            let n = self.complex[i].len();
            proof {
                assert(cs.take(i + 1).drop_last() =~= cs.take(i as int));
                assert(cs.take(i + 1).last() == cs[i as int]);
            }
            if n > 0 {
                out.push((ResourceKind::Complex(ComplexKind::at(i)), n));
            }
            proof {
                reveal(Seq::filter);
                let t = cs.take(i + 1);
                assert(cs[i as int] == (ResourceKind::Complex(complex_at(i as int)), n));
                assert(held_only(t) == (if held(t.last()) {
                    held_only(t.drop_last()).push(t.last())
                } else {
                    held_only(t.drop_last())
                }));
                assert(out@ =~= first_part + held_only(cs.take(i + 1)));
            }
            i = i + 1;
        }
        proof {
            assert(cs.take(COMPLEX_KINDS as int) =~= cs);
        }
        out
    }
}

/// No two entries of `s` name the same kind.
pub open spec fn kinds_distinct(s: Seq<(ResourceKind, usize)>) -> bool {
    forall|i: int, j: int| 0 <= i < s.len() && 0 <= j < s.len() && i != j ==> #[trigger] s[i].0 != #[trigger] s[j].0
}

/// `entry` gives the count that the bag holds of its kind.
pub open spec fn counts_its_kind(entry: (ResourceKind, usize), basic: Seq<usize>, complex: Seq<usize>) -> bool {
    match entry.0 {
        ResourceKind::Basic(k) => entry.1 == basic[basic_slot(k)],
        ResourceKind::Complex(k) => entry.1 == complex[complex_slot(k)],
    }
}

/// Keeping the held entries keeps only entries of `s`, and names no kind
/// twice when `s` does not.
proof fn lemma_held_only_of_distinct(s: Seq<(ResourceKind, usize)>)
    requires
        kinds_distinct(s),
    ensures
        kinds_distinct(held_only(s)),
        forall|i: int| 0 <= i < held_only(s).len() ==> s.contains(#[trigger] held_only(s)[i]),
    decreases s.len(),
{
    if s.len() > 0 {
        let t = s.drop_last();
        assert(kinds_distinct(t)) by {
            assert forall|i: int, j: int| 0 <= i < t.len() && 0 <= j < t.len() && i != j implies #[trigger] t[i].0
                != #[trigger] t[j].0 by {
                assert(t[i] == s[i] && t[j] == s[j]);
            }
        }
        lemma_held_only_of_distinct(t);
        reveal(Seq::filter);
        let h = held_only(t);
        assert(held_only(s) == (if held(s.last()) {
            h.push(s.last())
        } else {
            h
        }));
        assert forall|i: int| 0 <= i < h.len() implies s.contains(#[trigger] h[i]) && h[i].0 != s.last().0 by {
            assert(t.contains(h[i]));
            let j = choose|j: int| 0 <= j < t.len() && t[j] == h[i];
            assert(s[j] == h[i]);
            assert(s[s.len() - 1] == s.last());
        }
        assert(s.contains(s.last())) by {
            assert(s[s.len() - 1] == s.last());
        }
    }
}

/// The summary names each kind at most once; it reports a kind, with the
/// count the bag holds of it, exactly when the bag holds at least one
/// resource of that kind; and it reports nothing else.
pub proof fn lemma_summary_reports_held_kinds(basic: Seq<usize>, complex: Seq<usize>)
    requires
        basic.len() == BASIC_KINDS,
        complex.len() == COMPLEX_KINDS,
    ensures
        kinds_distinct(summary_of(basic, complex)),
        forall|k: BasicKind| #[trigger]
            summary_of(basic, complex).contains((ResourceKind::Basic(k), basic[basic_slot(k)])) <==> basic[basic_slot(
                k,
            )] > 0,
        forall|k: ComplexKind| #[trigger]
            summary_of(basic, complex).contains((ResourceKind::Complex(k), complex[complex_slot(k)]))
                <==> complex[complex_slot(k)] > 0,
        forall|i: int| 0 <= i < summary_of(basic, complex).len() ==> #[trigger] summary_of(basic, complex)[i].1 > 0,
        forall|i: int|
            0 <= i < summary_of(basic, complex).len() ==> counts_its_kind(
                #[trigger] summary_of(basic, complex)[i],
                basic,
                complex,
            ),
{
    let bs = basic_entries(basic);
    let cs = complex_entries(complex);
    let hb = held_only(bs);
    let hc = held_only(cs);
    let sum = summary_of(basic, complex);
    let keep = |x: (ResourceKind, usize)| held(x);
    assert(kinds_distinct(bs)) by {
        assert forall|i: int, j: int| 0 <= i < bs.len() && 0 <= j < bs.len() && i != j implies #[trigger] bs[i].0
            != #[trigger] bs[j].0 by {
            assert(bs[i].0 == ResourceKind::Basic(basic_at(i)));
            assert(bs[j].0 == ResourceKind::Basic(basic_at(j)));
        }
    }
    assert(kinds_distinct(cs)) by {
        assert forall|i: int, j: int| 0 <= i < cs.len() && 0 <= j < cs.len() && i != j implies #[trigger] cs[i].0
            != #[trigger] cs[j].0 by {
            assert(cs[i].0 == ResourceKind::Complex(complex_at(i)));
            assert(cs[j].0 == ResourceKind::Complex(complex_at(j)));
        }
    }
    lemma_held_only_of_distinct(bs);
    lemma_held_only_of_distinct(cs);
    assert forall|i: int| 0 <= i < hb.len() implies (#[trigger] hb[i]).0 is Basic && counts_its_kind(
        hb[i],
        basic,
        complex,
    ) by {
        assert(bs.contains(hb[i]));
        let j = choose|j: int| 0 <= j < bs.len() && bs[j] == hb[i];
        assert(bs[j] == (ResourceKind::Basic(basic_at(j)), basic[j]));
    }
    assert forall|i: int| 0 <= i < hc.len() implies (#[trigger] hc[i]).0 is Complex && counts_its_kind(
        hc[i],
        basic,
        complex,
    ) by {
        assert(cs.contains(hc[i]));
        let j = choose|j: int| 0 <= j < cs.len() && cs[j] == hc[i];
        assert(cs[j] == (ResourceKind::Complex(complex_at(j)), complex[j]));
    }
    assert forall|i: int, j: int| 0 <= i < sum.len() && 0 <= j < sum.len() && i != j implies #[trigger] sum[i].0
        != #[trigger] sum[j].0 by {
        if i < hb.len() && j < hb.len() {
            assert(sum[i] == hb[i] && sum[j] == hb[j]);
        } else if i >= hb.len() && j >= hb.len() {
            assert(sum[i] == hc[i - hb.len()] && sum[j] == hc[j - hb.len()]);
        } else if i < hb.len() {
            assert(sum[i] == hb[i] && sum[j] == hc[j - hb.len()]);
        } else {
            assert(sum[j] == hb[j] && sum[i] == hc[i - hb.len()]);
        }
    }
    assert forall|i: int| 0 <= i < sum.len() implies #[trigger] sum[i].1 > 0 && counts_its_kind(
        sum[i],
        basic,
        complex,
    ) by {
        if i < hb.len() {
            bs.lemma_filter_pred(keep, i);
            assert(sum[i] == hb[i]);
        } else {
            cs.lemma_filter_pred(keep, i - hb.len());
            assert(sum[i] == hc[i - hb.len()]);
        }
    }
    assert forall|k: BasicKind| #[trigger]
        sum.contains((ResourceKind::Basic(k), basic[basic_slot(k)])) <==> basic[basic_slot(k)] > 0 by {
        let e = (ResourceKind::Basic(k), basic[basic_slot(k)]);
        let slot = basic_slot(k);
        assert(bs[slot] == e);
        if basic[slot] > 0 {
            bs.lemma_filter_contains(keep, slot);
            assert(hb.contains(e));
            let m = choose|m: int| 0 <= m < hb.len() && hb[m] == e;
            assert(sum[m] == e);
        }
        if sum.contains(e) {
            let m = choose|m: int| 0 <= m < sum.len() && sum[m] == e;
            assert(sum[m].1 > 0);
        }
    }
    assert forall|k: ComplexKind| #[trigger]
        sum.contains((ResourceKind::Complex(k), complex[complex_slot(k)])) <==> complex[complex_slot(k)] > 0 by {
        let e = (ResourceKind::Complex(k), complex[complex_slot(k)]);
        let slot = complex_slot(k);
        assert(cs[slot] == e);
        if complex[slot] > 0 {
            cs.lemma_filter_contains(keep, slot);
            assert(hc.contains(e));
            let m = choose|m: int| 0 <= m < hc.len() && hc[m] == e;
            assert(sum[hb.len() + m] == e);
        }
        if sum.contains(e) {
            let m = choose|m: int| 0 <= m < sum.len() && sum[m] == e;
            assert(sum[m].1 > 0);
        }
    }
}

impl Default for JebBag {
    fn default() -> (bag: Self)
        ensures
            bag.wf(),
            bag.basic_counts() == Seq::new(BASIC_KINDS as nat, |i: int| 0usize),
            bag.complex_counts() == Seq::new(COMPLEX_KINDS as nat, |i: int| 0usize),
    {
        Self::new()
    }
}

} // verus!
