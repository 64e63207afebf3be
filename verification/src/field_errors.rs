//! Validation messages grouped by the field they are about.

use vstd::prelude::*;
use crate::text::{clone_texts, Texts};

verus! {

/// Validation messages grouped by the field they are about.
///
/// Fields are kept in the order in which they were first mentioned, and no
/// field occurs twice.
#[derive(Debug, Clone, PartialEq, Eq)]
pub struct FieldErrors {
    entries: Vec<(String, Vec<String>)>,
}

/// A field's name paired with one message about it.
pub type FieldMessage = (Seq<char>, Seq<char>);

/// Selects the pairs that are about `field`.
pub open spec fn about(field: Seq<char>) -> spec_fn(FieldMessage) -> bool {
    |p: FieldMessage| p.0 == field
}

/// Picks the message of a pair.
pub open spec fn message_of() -> spec_fn(FieldMessage) -> Seq<char> {
    |p: FieldMessage| p.1
}

/// The messages that `pairs` hold about `field`, in their order in `pairs`.
pub open spec fn messages_for(pairs: Seq<FieldMessage>, field: Seq<char>) -> Texts {
    pairs.filter(about(field)).map_values(message_of())
}

/// The messages of `pairs` grouped by field: a field is present when some
/// pair names it, and holds all its messages in their order in `pairs`.
pub open spec fn grouped(pairs: Seq<FieldMessage>) -> Map<Seq<char>, Texts> {
    Map::new(
        |k: Seq<char>| exists|i: int| 0 <= i < pairs.len() && (#[trigger] pairs[i]).0 == k,
        |k: Seq<char>| messages_for(pairs, k),
    )
}

/// Appending a pair adds its message to the messages of its field and to
/// those of no other.
pub proof fn lemma_messages_push(pairs: Seq<FieldMessage>, p: FieldMessage, field: Seq<char>)
    ensures
        messages_for(pairs.push(p), field) == if p.0 == field {
            messages_for(pairs, field).push(p.1)
        } else {
            messages_for(pairs, field)
        },
{
    let f = about(field);
    assert(pairs.push(p).drop_last() =~= pairs);
    reveal_with_fuel(Seq::filter, 2);
    assert(pairs.push(p).filter(f) == if f(p) {
        pairs.filter(f).push(p)
    } else {
        pairs.filter(f)
    });
    if p.0 == field {
        assert(pairs.filter(f).push(p).map_values(message_of()) =~= pairs.filter(f).map_values(
            message_of(),
        ).push(p.1));
    }
}

/// The first row of `entries` that is about `field`.
pub open spec fn index_of_field(entries: Seq<(Seq<char>, Texts)>, field: Seq<char>) -> Option<int> {
    if exists|k: int| 0 <= k < entries.len() && (#[trigger] entries[k]).0 == field {
        Some(choose|k: int| 0 <= k < entries.len() && (#[trigger] entries[k]).0 == field
            && forall|j: int| 0 <= j < k ==> (#[trigger] entries[j]).0 != field)
    } else {
        None
    }
}

/// The first row about `field` exists when any row about it does, and no
/// earlier row is about it.
pub proof fn lemma_index_of_field(entries: Seq<(Seq<char>, Texts)>, field: Seq<char>)
    ensures
        match index_of_field(entries, field) {
            Some(k) => 0 <= k < entries.len() && entries[k].0 == field && forall|j: int|
                0 <= j < k ==> (#[trigger] entries[j]).0 != field,
            None => forall|k: int| 0 <= k < entries.len() ==> (#[trigger] entries[k]).0 != field,
        },
{
    if exists|k: int| 0 <= k < entries.len() && (#[trigger] entries[k]).0 == field {
        let k0 = choose|k: int| 0 <= k < entries.len() && (#[trigger] entries[k]).0 == field;
        lemma_first_row(entries, field, k0);
    }
}

/// Below any row about `field` there is a first one.
proof fn lemma_first_row(entries: Seq<(Seq<char>, Texts)>, field: Seq<char>, k0: int)
    requires
        0 <= k0 < entries.len(),
        entries[k0].0 == field,
    ensures
        exists|k: int|
            0 <= k <= k0 && (#[trigger] entries[k]).0 == field && forall|j: int|
                0 <= j < k ==> (#[trigger] entries[j]).0 != field,
    decreases k0,
{
    if exists|j: int| 0 <= j < k0 && (#[trigger] entries[j]).0 == field {
        let j = choose|j: int| 0 <= j < k0 && (#[trigger] entries[j]).0 == field;
        lemma_first_row(entries, field, j);
    } else {
        assert(entries[k0].0 == field);
    }
}

/// Some pair of `pairs` is about `field`.
pub open spec fn names(pairs: Seq<FieldMessage>, field: Seq<char>) -> bool {
    exists|j: int| 0 <= j < pairs.len() && (#[trigger] pairs[j]).0 == field
}

/// Some entry of `entries` is about `field`.
pub open spec fn has_entry(entries: Seq<(Seq<char>, Texts)>, field: Seq<char>) -> bool {
    exists|k: int| 0 <= k < entries.len() && (#[trigger] entries[k]).0 == field
}

/// `entries` is `pairs` grouped by field: one entry per field that `pairs`
/// name, holding the field's messages in their order in `pairs`.
pub open spec fn is_grouping(entries: Seq<(Seq<char>, Texts)>, pairs: Seq<FieldMessage>) -> bool {
    &&& forall|i: int, j: int|
        0 <= i < j < entries.len() ==> (#[trigger] entries[i]).0 != (#[trigger] entries[j]).0
    &&& forall|k: int|
        0 <= k < entries.len() ==> (#[trigger] entries[k]).1 == messages_for(pairs, entries[k].0)
    &&& forall|k: int| 0 <= k < entries.len() ==> names(pairs, (#[trigger] entries[k]).0)
    &&& forall|j: int| 0 <= j < pairs.len() ==> has_entry(entries, (#[trigger] pairs[j]).0)
}

/// The entries after one more pair: the pair's message joins its field's
/// entry, or opens a new entry behind the others.
pub open spec fn with_pair(entries: Seq<(Seq<char>, Texts)>, p: FieldMessage) -> Seq<
    (Seq<char>, Texts),
> {
    match index_of_field(entries, p.0) {
        Some(k) => entries.update(k, (p.0, entries[k].1.push(p.1))),
        None => entries.push((p.0, seq![p.1])),
    }
}

/// The entries that result from filing `pairs` one after the other.
pub open spec fn filed(pairs: Seq<FieldMessage>) -> Seq<(Seq<char>, Texts)>
    decreases pairs.len(),
{
    if pairs.len() == 0 {
        Seq::empty()
    } else {
        with_pair(filed(pairs.drop_last()), pairs.last())
    }
}

/// One more pair names what was named before, and its own field.
proof fn lemma_names_push(pairs: Seq<FieldMessage>, p: FieldMessage, field: Seq<char>)
    ensures
        names(pairs.push(p), field) <==> names(pairs, field) || p.0 == field,
{
    let more = pairs.push(p);
    if names(pairs, field) {
        let j = choose|j: int| 0 <= j < pairs.len() && (#[trigger] pairs[j]).0 == field;
        assert(more[j].0 == field);
    }
    if p.0 == field {
        assert(more[pairs.len() as int].0 == field);
    }
    if names(more, field) {
        let j = choose|j: int| 0 <= j < more.len() && (#[trigger] more[j]).0 == field;
        if j < pairs.len() {
            assert(pairs[j].0 == field);
        }
    }
}

/// Filing a pair whose field has an entry at row `k`.
proof fn lemma_grouping_update(
    entries: Seq<(Seq<char>, Texts)>,
    pairs: Seq<FieldMessage>,
    p: FieldMessage,
    k: int,
)
    requires
        is_grouping(entries, pairs),
        0 <= k < entries.len(),
        entries[k].0 == p.0,
    ensures
        is_grouping(entries.update(k, (p.0, entries[k].1.push(p.1))), pairs.push(p)),
{
    let after = entries.update(k, (p.0, entries[k].1.push(p.1)));
    let more = pairs.push(p);
    assert forall|m: int| 0 <= m < after.len() implies (#[trigger] after[m]).1 == messages_for(
        more,
        after[m].0,
    ) && names(more, after[m].0) by {
        lemma_messages_push(pairs, p, after[m].0);
        lemma_names_push(pairs, p, after[m].0);
        assert(after[m].0 == entries[m].0);
    }
    assert forall|j: int| 0 <= j < more.len() implies has_entry(after, (#[trigger] more[j]).0) by {
        if j < pairs.len() {
            assert(has_entry(entries, pairs[j].0));
            let m = choose|m: int|
                0 <= m < entries.len() && (#[trigger] entries[m]).0 == pairs[j].0;
            assert(after[m].0 == more[j].0);
        } else {
            assert(after[k].0 == more[j].0);
        }
    }
    assert forall|i: int, j: int| 0 <= i < j < after.len() implies (#[trigger] after[i]).0 != (
    #[trigger] after[j]).0 by {
        assert(after[i].0 == entries[i].0);
        assert(after[j].0 == entries[j].0);
    }
}

/// Filing a pair whose field has no entry yet.
proof fn lemma_grouping_push(
    entries: Seq<(Seq<char>, Texts)>,
    pairs: Seq<FieldMessage>,
    p: FieldMessage,
)
    requires
        is_grouping(entries, pairs),
        !has_entry(entries, p.0),
    ensures
        is_grouping(entries.push((p.0, seq![p.1])), pairs.push(p)),
{
    let after = entries.push((p.0, seq![p.1]));
    let more = pairs.push(p);
    assert(messages_for(pairs, p.0) =~= Seq::empty()) by {
        assert forall|j: int| 0 <= j < pairs.len() implies !about(p.0)(#[trigger] pairs[j]) by {
            assert(has_entry(entries, pairs[j].0));
        }
        pairs.lemma_all_neg_filter_empty(about(p.0));
    }
    assert(Seq::<Seq<char>>::empty().push(p.1) =~= seq![p.1]);
    assert forall|m: int| 0 <= m < after.len() implies (#[trigger] after[m]).1 == messages_for(
        more,
        after[m].0,
    ) && names(more, after[m].0) by {
        lemma_messages_push(pairs, p, after[m].0);
        lemma_names_push(pairs, p, after[m].0);
        if m < entries.len() {
            assert(after[m] == entries[m]);
            assert(has_entry(entries, entries[m].0));
        }
    }
    assert forall|j: int| 0 <= j < more.len() implies has_entry(after, (#[trigger] more[j]).0) by {
        if j < pairs.len() {
            assert(has_entry(entries, pairs[j].0));
            let m = choose|m: int|
                0 <= m < entries.len() && (#[trigger] entries[m]).0 == pairs[j].0;
            assert(after[m].0 == more[j].0);
        } else {
            assert(after[entries.len() as int].0 == more[j].0);
        }
    }
    assert forall|i: int, j: int| 0 <= i < j < after.len() implies (#[trigger] after[i]).0 != (
    #[trigger] after[j]).0 by {
        assert(after[i] == entries[i]);
        if j < entries.len() {
            assert(after[j] == entries[j]);
        } else {
            assert(has_entry(entries, entries[i].0));
        }
    }
}

/// Filing one more pair keeps the entries a grouping of the pairs.
pub proof fn lemma_grouping_step(
    entries: Seq<(Seq<char>, Texts)>,
    pairs: Seq<FieldMessage>,
    p: FieldMessage,
)
    requires
        is_grouping(entries, pairs),
    ensures
        is_grouping(with_pair(entries, p), pairs.push(p)),
{
    lemma_index_of_field(entries, p.0);
    match index_of_field(entries, p.0) {
        Some(k) => {
            lemma_grouping_update(entries, pairs, p, k);
        },
        None => {
            lemma_grouping_push(entries, pairs, p);
        },
    }
}

/// A grouping of `pairs`, read as a map, is `grouped(pairs)`.
pub proof fn lemma_grouping_map(entries: Seq<(Seq<char>, Texts)>, pairs: Seq<FieldMessage>)
    requires
        is_grouping(entries, pairs),
    ensures
        map_of(entries) == grouped(pairs),
{
    let m = map_of(entries);
    let g = grouped(pairs);
    assert forall|k: Seq<char>| m.dom().contains(k) <==> g.dom().contains(k) by {
        if m.dom().contains(k) {
            let i = choose|i: int| 0 <= i < entries.len() && (#[trigger] entries[i]).0 == k;
            assert(names(pairs, entries[i].0));
        }
        if g.dom().contains(k) {
            let j = choose|j: int| 0 <= j < pairs.len() && (#[trigger] pairs[j]).0 == k;
            assert(has_entry(entries, pairs[j].0));
        }
    }
    assert(m =~= g);
}

/// The entries read as a map from field to messages.
pub open spec fn map_of(entries: Seq<(Seq<char>, Texts)>) -> Map<Seq<char>, Texts> {
    Map::new(
        |k: Seq<char>| exists|i: int| 0 <= i < entries.len() && (#[trigger] entries[i]).0 == k,
        |k: Seq<char>|
            entries[choose|i: int| 0 <= i < entries.len() && (#[trigger] entries[i]).0 == k].1,
    )
}

impl FieldErrors {
    /// The fields in order of first mention, each with its messages.
    pub closed spec fn entries(&self) -> Seq<(Seq<char>, Texts)> {
        Seq::new(
            self.entries.len() as nat,
            |i: int| (self.entries[i].0@, self.entries[i].1.deep_view()),
        )
    }

    /// No field occurs twice.
    pub open spec fn wf(&self) -> bool {
        forall|i: int, j: int|
            0 <= i < j < self.entries().len() ==> (#[trigger] self.entries()[i]).0 != (
            #[trigger] self.entries()[j]).0
    }
}

impl FieldErrors {
    /// Row of `field` among the entries.
    fn find(&self, field: &String) -> (r: Option<usize>)
        ensures
            match r {
                Some(k) => k < self.entries().len() && self.entries()[k as int].0 == field@
                    && forall|j: int| 0 <= j < k ==> (#[trigger] self.entries()[j]).0 != field@,
                None => forall|k: int|
                    0 <= k < self.entries().len() ==> (#[trigger] self.entries()[k]).0 != field@,
            },
    {
        let mut k: usize = 0;
        while k < self.entries.len()
            invariant
                k <= self.entries.len(),
                forall|j: int| 0 <= j < k ==> (#[trigger] self.entries()[j]).0 != field@,
            decreases self.entries.len() - k,
        {
            if self.entries[k].0 == *field {
                return Some(k);
            }
            k += 1;
        }
        None
    }

    /// Files `message` under `field`, behind the messages the field already
    /// has; a field not seen before is added behind the others.
    fn add(&mut self, field: String, message: String)
        ensures
            final(self).entries() == match index_of_field(old(self).entries(), field@) {
                Some(k) => old(self).entries().update(
                    k,
                    (field@, old(self).entries()[k].1.push(message@)),
                ),
                None => old(self).entries().push((field@, seq![message@])),
            },
    {
        let ghost before = self.entries();
        match self.find(&field) {
            Some(k) => {
                proof {
                    lemma_index_of_field(before, field@);
                }
                self.entries[k].1.push(message);
                assert(self.entries[k as int].1.deep_view() =~= before[k as int].1.push(message@));
                assert(self.entries() =~= before.update(
                    k as int,
                    (field@, before[k as int].1.push(message@)),
                ));
            },
            None => {
                let mut messages: Vec<String> = Vec::new();
                messages.push(message);
                assert(messages.deep_view() =~= seq![message@]);
                self.entries.push((field, messages));
                assert(self.entries() =~= before.push((field@, seq![message@])));
            },
        }
    }

    /// Groups `(field, message)` pairs by field. Fields come out in the
    /// order of their first mention, and the messages of a field in the
    /// order in which they were given.
    pub fn collect(pairs: Vec<(String, String)>) -> (r: FieldErrors)
        ensures
            r.wf(),
            r.entries() == filed(pairs.deep_view()),
            r@ == grouped(pairs.deep_view()),
    {
        let ghost all = pairs.deep_view();
        let mut out = FieldErrors { entries: Vec::new() };
        let mut i: usize = 0;
        assert(all.take(0) =~= Seq::empty());
        assert(out.entries() =~= Seq::empty());
        while i < pairs.len()
            invariant
                i <= pairs.len(),
                all == pairs.deep_view(),
                out.entries() == filed(all.take(i as int)),
                is_grouping(out.entries(), all.take(i as int)),
            decreases pairs.len() - i,
        {
            proof {
                assert(all.take(i + 1) =~= all.take(i as int).push(all[i as int]));
                assert(all.take(i + 1).drop_last() =~= all.take(i as int));
                assert(all[i as int] == (pairs[i as int].0@, pairs[i as int].1@));
                lemma_grouping_step(out.entries(), all.take(i as int), all[i as int]);
            }
            out.add(pairs[i].0.clone(), pairs[i].1.clone());
            i += 1;
        }
        assert(all.take(i as int) =~= all);
        proof {
            lemma_grouping_map(out.entries(), all);
        }
        out
    }

    /// The groups as plain values: each field, in order of first mention,
    /// with its messages.
    pub fn to_entries(&self) -> (r: Vec<(String, Vec<String>)>)
        ensures
            r.deep_view() == self.entries(),
    {
        let mut out: Vec<(String, Vec<String>)> = Vec::new();
        let mut i: usize = 0;
        while i < self.entries.len()
            invariant
                i <= self.entries.len(),
                out.len() == i,
                forall|k: int| 0 <= k < i ==> (#[trigger] out[k]).deep_view() == self.entries()[k],
            decreases self.entries.len() - i,
        {
            let field = self.entries[i].0.clone();
            let messages = clone_texts(self.entries[i].1.as_slice());
            out.push((field, messages));
            i += 1;
        }
        assert(out.deep_view() =~= self.entries());
        out
    }
}

impl View for FieldErrors {
    type V = Map<Seq<char>, Texts>;

    /// The messages of each field that has any.
    open spec fn view(&self) -> Map<Seq<char>, Texts> {
        map_of(self.entries())
    }
}

} // verus!
