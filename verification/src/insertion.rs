//! Insertions — the pieces of text to be injected into the original source —
//! and the ordered list that accumulates them.
//!
//! The list records insertions in traversal order and is sorted once with a
//! composite key: ascending offset; at equal offsets closing insertions come
//! before opening ones; stacked openers keep production order while stacked
//! closers reverse it. The sort is specified as a deterministic insertion
//! sort over that key, so the final order is pinned down exactly.

use vstd::prelude::*;

verus! {

/// Mathematical model of a single insertion.
pub ghost struct InsertionModel {
    /// Offset into the source buffer before which the text goes.
    pub offset: int,
    /// The injected bytes.
    pub text: Seq<u8>,
    /// Position in production order, assigned by the sort.
    pub ordering: Option<int>,
    /// `true` for closing insertions.
    pub reverse: bool,
}

/// A single piece of text to insert into the original source.
pub struct Insertion {
    /// The offset in the original source where this insertion should be made.
    pub offset: usize,
    /// The text to insert.
    pub text: Vec<u8>,
    /// Not set by callers: records the original insertion order into an
    /// `InsertionList`, for sorting the list.
    pub original_ordering: Option<usize>,
    /// `true` for closing insertions that sort in reverse production order.
    pub reverse: bool,
}

impl View for Insertion {
    type V = InsertionModel;

    open spec fn view(&self) -> InsertionModel {
        InsertionModel {
            offset: self.offset as int,
            text: self.text@,
            ordering: match self.original_ordering {
                Some(n) => Some(n as int),
                None => None,
            },
            reverse: self.reverse,
        }
    }
}

/// The models of a sequence of insertions.
pub open spec fn models(s: Seq<Insertion>) -> Seq<InsertionModel> {
    Seq::new(s.len(), |i: int| s[i]@)
}

/// `models` maps over `push`.
pub proof fn lemma_models_push(s: Seq<Insertion>, x: Insertion)
    ensures
        models(s.push(x)) =~= models(s).push(x@),
{
}

/// `models` maps over concatenation.
pub proof fn lemma_models_concat(a: Seq<Insertion>, b: Seq<Insertion>)
    ensures
        models(a + b) =~= models(a) + models(b),
{
    assert forall|j: int| 0 <= j < a.len() + b.len() implies models(a + b)[j] == (models(a)
        + models(b))[j] by {
        if j < a.len() {
            assert((a + b)[j] == a[j]);
        } else {
            assert((a + b)[j] == b[j - a.len()]);
        }
    }
}

impl Insertion {
    /// Creates a new insertion.
    pub fn new(offset: usize, text: Vec<u8>, reverse: bool) -> (r: Insertion)
        ensures
            r@ == (InsertionModel {
                offset: offset as int,
                text: text@,
                ordering: None,
                reverse,
            }),
    {
        Insertion { offset, text, original_ordering: None, reverse }
    }

    /// Utility to create a pair of insertions for matching opening and
    /// closing tags around `span`.
    pub fn pair(span: crate::Span, open: Vec<u8>, close: Vec<u8>) -> (r: (Insertion, Insertion))
        ensures
            r.0@ == (InsertionModel {
                offset: span.start as int,
                text: open@,
                ordering: None,
                reverse: false,
            }),
            r.1@ == (InsertionModel {
                offset: span.end as int,
                text: close@,
                ordering: None,
                reverse: true,
            }),
    {
        let open_insertion = Insertion::new(span.start, open, false);
        let close_insertion = Insertion::new(span.end, close, true);
        (open_insertion, close_insertion)
    }

    /// The length of the inserted text.
    pub fn len(&self) -> (r: usize)
        ensures
            r == self@.text.len(),
    {
        self.text.len()
    }
}

/// The production-order number of an insertion, zero before numbering.
pub open spec fn ordv(m: InsertionModel) -> int {
    match m.ordering {
        Some(n) => n,
        None => 0,
    }
}

/// At equal offsets, closing insertions come before opening ones.
pub open spec fn grp(m: InsertionModel) -> int {
    if m.reverse {
        0
    } else {
        1
    }
}

/// Within one group: openers keep production order, closers reverse it.
pub open spec fn tie(m: InsertionModel) -> int {
    if m.reverse {
        -ordv(m)
    } else {
        ordv(m)
    }
}

/// The composite sort key: `a` may stand before `b`.
pub open spec fn le(a: InsertionModel, b: InsertionModel) -> bool {
    ||| a.offset < b.offset
    ||| (a.offset == b.offset && grp(a) < grp(b))
    ||| (a.offset == b.offset && grp(a) == grp(b) && tie(a) <= tie(b))
}

/// Non-decreasing with respect to the composite key.
pub open spec fn sorted(s: Seq<InsertionModel>) -> bool {
    forall|i: int, j: int| 0 <= i < j < s.len() ==> le(#[trigger] s[i], #[trigger] s[j])
}

/// `m` with its production-order number set to `n`.
pub open spec fn with_ordering(m: InsertionModel, n: int) -> InsertionModel {
    InsertionModel { offset: m.offset, text: m.text, ordering: Some(n), reverse: m.reverse }
}

/// Every insertion numbered by its position, in order of production.
pub open spec fn numbered(s: Seq<InsertionModel>) -> Seq<InsertionModel> {
    Seq::new(s.len(), |i: int| with_ordering(s[i], i))
}

/// `x` inserted in front of the first element it may stand before.
pub open spec fn insert_sorted(x: InsertionModel, s: Seq<InsertionModel>) -> Seq<InsertionModel>
    decreases s.len(),
{
    if s.len() == 0 {
        seq![x]
    } else if le(x, s[0]) {
        seq![x] + s
    } else {
        seq![s[0]] + insert_sorted(x, s.drop_first())
    }
}

/// The deterministic sort: every element inserted in production order.
pub open spec fn sort_spec(s: Seq<InsertionModel>) -> Seq<InsertionModel>
    decreases s.len(),
{
    if s.len() == 0 {
        Seq::empty()
    } else {
        insert_sorted(s.last(), sort_spec(s.drop_last()))
    }
}

proof fn lemma_insert_sorted_len(x: InsertionModel, s: Seq<InsertionModel>)
    ensures
        insert_sorted(x, s).len() == s.len() + 1,
    decreases s.len(),
{
    if s.len() > 0 && !le(x, s[0]) {
        lemma_insert_sorted_len(x, s.drop_first());
    }
}

/// Inserting preserves sortedness.
proof fn lemma_insert_sorted_sorted(x: InsertionModel, s: Seq<InsertionModel>)
    requires
        sorted(s),
    ensures
        sorted(insert_sorted(x, s)),
    decreases s.len(),
{
    lemma_insert_sorted_len(x, s);
    if s.len() == 0 {
    } else if le(x, s[0]) {
        let r = seq![x] + s;
        assert forall|i: int, j: int| 0 <= i < j < r.len() implies le(r[i], r[j]) by {
            if i == 0 {
                assert(le(x, s[0]));
                if j > 1 {
                    assert(le(s[0], s[j - 1]));
                }
            } else {
                assert(le(s[i - 1], s[j - 1]));
            }
        }
    } else {
        let t = s.drop_first();
        assert(sorted(t)) by {
            assert(forall|i: int, j: int|
                0 <= i < j < t.len() ==> le(#[trigger] t[i], #[trigger] t[j]) == le(
                    s[i + 1],
                    s[j + 1],
                ));
        }
        lemma_insert_sorted_sorted(x, t);
        lemma_insert_sorted_len(x, t);
        let r = seq![s[0]] + insert_sorted(x, t);
        let it = insert_sorted(x, t);
        assert forall|i: int, j: int| 0 <= i < j < r.len() implies le(r[i], r[j]) by {
            lemma_insert_sorted_elements(x, t);
            if i == 0 {
                // r[j] is x or an element of t; s[0] precedes both
                assert(it[j - 1] == x || t.contains(it[j - 1]));
                if it[j - 1] == x {
                    assert(!le(x, s[0]));
                } else {
                    let k = choose|k: int| 0 <= k < t.len() && t[k] == it[j - 1];
                    assert(le(s[0], s[k + 1]));
                }
            }
        }
    }
}

/// Every element of the inserted list is `x` or an element of `s`.
proof fn lemma_insert_sorted_elements(x: InsertionModel, s: Seq<InsertionModel>)
    ensures
        forall|j: int|
            0 <= j < insert_sorted(x, s).len() ==> (#[trigger] insert_sorted(x, s)[j] == x
                || s.contains(insert_sorted(x, s)[j])),
    decreases s.len(),
{
    lemma_insert_sorted_len(x, s);
    if s.len() == 0 {
    } else if le(x, s[0]) {
    } else {
        let t = s.drop_first();
        lemma_insert_sorted_elements(x, t);
        lemma_insert_sorted_len(x, t);
        assert forall|j: int|
            0 <= j < insert_sorted(x, s).len() implies (#[trigger] insert_sorted(x, s)[j] == x
            || s.contains(insert_sorted(x, s)[j])) by {
            if j == 0 {
                assert(s.contains(s[0]));
            } else {
                let e = insert_sorted(x, t)[j - 1];
                assert(insert_sorted(x, s)[j] == e);
                if e != x {
                    let k = choose|k: int| 0 <= k < t.len() && t[k] == e;
                    assert(s[k + 1] == e);
                    assert(s.contains(s[k + 1]));
                }
            }
        }
    }
}

/// The sorted list is sorted.
pub proof fn lemma_sort_spec_sorted(s: Seq<InsertionModel>)
    ensures
        sorted(sort_spec(s)),
    decreases s.len(),
{
    if s.len() > 0 {
        lemma_sort_spec_sorted(s.drop_last());
        lemma_insert_sorted_sorted(s.last(), sort_spec(s.drop_last()));
    }
}

/// Inserting adds exactly one occurrence to the multiset of elements.
proof fn lemma_insert_sorted_multiset(x: InsertionModel, s: Seq<InsertionModel>)
    ensures
        insert_sorted(x, s).to_multiset() =~= s.to_multiset().insert(x),
    decreases s.len(),
{
    broadcast use vstd::seq_lib::group_to_multiset_ensures;

    if s.len() == 0 {
        assert(seq![x] =~= Seq::<InsertionModel>::empty().push(x));
    } else if le(x, s[0]) {
        assert(seq![x] + s =~= (seq![x] + s.drop_last()).push(s.last()));
        lemma_insert_head_multiset(x, s);
    } else {
        let t = s.drop_first();
        lemma_insert_sorted_multiset(x, t);
        vstd::seq_lib::lemma_multiset_commutative(seq![s[0]], insert_sorted(x, t));
        vstd::seq_lib::lemma_multiset_commutative(seq![s[0]], t);
        assert(seq![s[0]] + t =~= s);
    }
}

/// Prepending one element inserts it into the multiset.
proof fn lemma_insert_head_multiset(x: InsertionModel, s: Seq<InsertionModel>)
    ensures
        (seq![x] + s).to_multiset() =~= s.to_multiset().insert(x),
{
    broadcast use vstd::seq_lib::group_to_multiset_ensures;
    broadcast use vstd::multiset::group_multiset_axioms;

    vstd::seq_lib::lemma_multiset_commutative(seq![x], s);
    assert(seq![x] =~= Seq::<InsertionModel>::empty().push(x));
}

/// Every element of the sorted list comes from the input list.
pub proof fn lemma_sort_spec_elements(s: Seq<InsertionModel>)
    ensures
        forall|k: int|
            0 <= k < sort_spec(s).len() ==> s.contains(#[trigger] sort_spec(s)[k]),
    decreases s.len(),
{
    if s.len() > 0 {
        let t = s.drop_last();
        lemma_sort_spec_elements(t);
        lemma_insert_sorted_elements(s.last(), sort_spec(t));
        assert forall|k: int|
            0 <= k < sort_spec(s).len() implies s.contains(#[trigger] sort_spec(s)[k]) by {
            let e = sort_spec(s)[k];
            if e == s.last() {
                assert(s[s.len() - 1] == e);
            } else {
                assert(sort_spec(t).contains(e));
                let j = choose|j: int| 0 <= j < sort_spec(t).len() && sort_spec(t)[j] == e;
                assert(t.contains(e));
                let j2 = choose|j2: int| 0 <= j2 < t.len() && t[j2] == e;
                assert(s[j2] == e);
            }
        }
    }
}

/// The sort does not create or lose insertions.
pub proof fn lemma_sort_spec_multiset(s: Seq<InsertionModel>)
    ensures
        sort_spec(s).to_multiset() =~= s.to_multiset(),
    decreases s.len(),
{
    broadcast use vstd::seq_lib::group_to_multiset_ensures;

    if s.len() > 0 {
        lemma_sort_spec_multiset(s.drop_last());
        lemma_insert_sorted_multiset(s.last(), sort_spec(s.drop_last()));
        assert(s =~= s.drop_last().push(s.last()));
    }
}

/// Where the scan stops is where the recursive insertion lands.
proof fn lemma_insert_sorted_at(x: InsertionModel, s: Seq<InsertionModel>, k: int)
    requires
        0 <= k <= s.len(),
        forall|j: int| 0 <= j < k ==> !le(x, #[trigger] s[j]),
        k < s.len() ==> le(x, s[k]),
    ensures
        insert_sorted(x, s) =~= s.take(k) + seq![x] + s.skip(k),
    decreases s.len(),
{
    if s.len() == 0 {
    } else if le(x, s[0]) {
        assert(k == 0);
    } else {
        let t = s.drop_first();
        assert(forall|j: int| 0 <= j < k - 1 ==> !le(x, #[trigger] t[j]));
        lemma_insert_sorted_at(x, t, k - 1);
        lemma_insert_sorted_len(x, t);
        assert(insert_sorted(x, s) =~= seq![s[0]] + (t.take(k - 1) + seq![x] + t.skip(k - 1)));
    }
}

/// Keep track of all insertions to make in the original source.
pub struct InsertionList {
    /// The list of insertions to make.
    pub list: Vec<Insertion>,
    /// The variable names to declare at the start of the output (definitions
    /// pulled into the enclosing scope despite the wrapping IIFE).
    pub vars: Vec<Vec<u8>>,
}

/// The views of the collected variable names.
pub open spec fn name_views(s: Seq<Vec<u8>>) -> Seq<Seq<u8>> {
    Seq::new(s.len(), |i: int| s[i]@)
}

impl InsertionList {
    /// An empty list.
    pub fn new() -> (r: InsertionList)
        ensures
            r.list@ =~= Seq::<Insertion>::empty(),
            r.vars@ =~= Seq::<Vec<u8>>::empty(),
    {
        InsertionList { list: Vec::new(), vars: Vec::new() }
    }

    /// Moves all insertions and variable names of `other` to the end of `self`.
    pub fn append(&mut self, other: &mut InsertionList)
        ensures
            final(self).list@ == old(self).list@ + old(other).list@,
            final(self).vars@ == old(self).vars@ + old(other).vars@,
            final(other).list@ =~= Seq::<Insertion>::empty(),
            final(other).vars@ =~= Seq::<Vec<u8>>::empty(),
    {
        self.list.append(&mut other.list);
        self.vars.append(&mut other.vars);
    }

    /// Adds one insertion at the end.
    pub fn push_back(&mut self, insertion: Insertion)
        ensures
            final(self).list@ == old(self).list@.push(insertion),
            final(self).vars@ == old(self).vars@,
    {
        self.list.push(insertion);
    }

    /// Adds an opening/closing pair at the end, opener first.
    pub fn push_pair(&mut self, insertions: (Insertion, Insertion))
        ensures
            final(self).list@ == old(self).list@.push(insertions.0).push(insertions.1),
            final(self).vars@ == old(self).vars@,
    {
        let (open_insertion, close_insertion) = insertions;
        self.push_back(open_insertion);
        self.push_back(close_insertion);
    }

    /// Records a name to declare at the start of the output.
    pub fn add_variable(&mut self, variable: Vec<u8>)
        ensures
            final(self).list@ == old(self).list@,
            final(self).vars@ == old(self).vars@.push(variable),
    {
        self.vars.push(variable);
    }

    /// Numbers every insertion by its production order, then reorders by the
    /// composite key. The result is the unique order that the key and the
    /// numbering admit.
    /// Numbers every insertion by its production order, then reorders by the
    /// composite key. The result is the unique order that the key and the
    /// numbering admit.
    pub fn sort(&mut self)
        ensures
            models(final(self).list@) == sort_spec(numbered(models(old(self).list@))),
            final(self).vars@ == old(self).vars@,
            sorted(models(final(self).list@)),
    {
        let ghost orig: Seq<InsertionModel> = models(old(self).list@);
        let total = self.list.len();
        let mut out: Vec<Insertion> = Vec::new();
        let mut i: usize = 0;
        while self.list.len() > 0
            invariant
                orig.len() == total,
                i + self.list@.len() == orig.len(),
                models(self.list@) =~= orig.skip(i as int),
                models(out@) == sort_spec(numbered(orig).take(i as int)),
                sorted(models(out@)),
                self.vars@ == old(self).vars@,
            decreases self.list@.len(),
        {
            let ghost pre = self.list@;
            let mut x = self.list.remove(0);
            proof {
                assert(models(pre)[0] == pre[0]@);
                assert(models(pre)[0] == orig.skip(i as int)[0]);
                assert(x@ == orig[i as int]);
                assert forall|j: int| 0 <= j < self.list@.len() implies models(self.list@)[j]
                    == orig.skip(i + 1)[j] by {
                    assert(self.list@[j] == pre.remove(0)[j]);
                    assert(pre.remove(0)[j] == pre[j + 1]);
                    assert(models(pre)[j + 1] == pre[j + 1]@);
                    assert(models(pre)[j + 1] == orig.skip(i as int)[j + 1]);
                }
                assert(models(self.list@) =~= orig.skip(i + 1));
            }
            x.original_ordering = Some(i);
            proof {
                assert(x@ == numbered(orig)[i as int]);
            }
            let mut k: usize = 0;
            while k < out.len() && !before(&x, &out[k])
                invariant
                    0 <= k <= out@.len(),
                    forall|j: int| 0 <= j < k ==> !le(x@, models(out@)[j]),
                decreases out@.len() - k,
            {
                k += 1;
            }
            proof {
                assert(k < out@.len() ==> le(x@, models(out@)[k as int]));
                lemma_insert_sorted_at(x@, models(out@), k as int);
                lemma_insert_sorted_sorted(x@, models(out@));
            }
            let ghost pre_out = models(out@);
            out.insert(k, x);
            proof {
                assert(models(out@) =~= pre_out.take(k as int) + seq![x@] + pre_out.skip(
                    k as int,
                ));
                assert(models(out@) == insert_sorted(numbered(orig)[i as int], pre_out));
                let t = numbered(orig).take(i + 1);
                assert(t.drop_last() =~= numbered(orig).take(i as int));
                assert(t.last() == numbered(orig)[i as int]);
                assert(models(out@) == sort_spec(numbered(orig).take(i + 1)));
            }
            i += 1;
        }
        proof {
            assert(numbered(orig).take(orig.len() as int) =~= numbered(orig));
        }
        self.list = out;
    }
}

/// Whether `a` may stand before `b` under the composite sort key.
fn before(a: &Insertion, b: &Insertion) -> (r: bool)
    ensures
        r == le(a@, b@),
{
    if a.offset != b.offset {
        a.offset < b.offset
    } else if a.reverse && b.reverse {
        ord_of(b) <= ord_of(a)
    } else if !a.reverse && !b.reverse {
        ord_of(a) <= ord_of(b)
    } else {
        a.reverse
    }
}

/// The production-order number, zero when none was assigned yet.
pub fn ord_of(a: &Insertion) -> (r: usize)
    ensures
        r as int == ordv(a@),
{
    match a.original_ordering {
        Some(n) => n,
        None => 0,
    }
}

} // verus!
