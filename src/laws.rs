//! Properties that relate several functions of the library.
use crate::compare::equivalent;
use crate::events::{correlation_key, payload_of, MirrorView, PayloadView, SourceView};
use crate::sync::{creates, deletes, mirror_key, mirrored, plan_of, updates};
use vstd::prelude::*;

verus! {

/// The mirror event that a create payload becomes once the mirror has made it.
pub open spec fn mirror_from(p: PayloadView, id: Seq<char>, creator_id: u128) -> MirrorView {
    MirrorView {
        id,
        name: p.name,
        description: p.description,
        start: p.start,
        end: p.end,
        rule: p.rule,
        creator_id,
    }
}

/// A mirror event made from the create payload of a source event is
/// equivalent to that payload.
pub proof fn lemma_created_is_equivalent(s: SourceView, id: Seq<char>, creator_id: u128)
    ensures
        equivalent(payload_of(s), mirror_from(payload_of(s), id, creator_id)),
{
}

proof fn lemma_mirrored_skip(a: Seq<MirrorView>, m: MirrorView, b: Seq<MirrorView>, bot: u128, u: Seq<char>)
    requires
        mirror_key(m, bot) is None,
    ensures
        mirrored(a + seq![m] + b, bot, u) == mirrored(a + b, bot, u),
{
    let with = a + seq![m] + b;
    let without = a + b;
    if mirrored(with, bot, u) {
        let j = choose|j: int| 0 <= j < with.len() && mirror_key(with[j], bot) == Some(u);
        if j < a.len() {
            assert(without[j] == with[j]);
        } else {
            assert(j != a.len());
            assert(without[j - 1] == with[j]);
        }
    }
    if mirrored(without, bot, u) {
        let j = choose|j: int| 0 <= j < without.len() && mirror_key(without[j], bot) == Some(u);
        if j < a.len() {
            assert(without[j] == with[j]);
        } else {
            assert(without[j] == with[j + 1]);
        }
    }
}

proof fn lemma_creates_same(
    ss: Seq<SourceView>,
    ms1: Seq<MirrorView>,
    ms2: Seq<MirrorView>,
    bot: u128,
    now: int,
)
    requires
        forall|u: Seq<char>| mirrored(ms1, bot, u) == mirrored(ms2, bot, u),
    ensures
        creates(ss, ms1, bot, now) == creates(ss, ms2, bot, now),
    decreases ss.len(),
{
    if ss.len() > 0 {
        lemma_creates_same(ss.drop_last(), ms1, ms2, bot, now);
        assert(mirrored(ms1, bot, ss.last().uid) == mirrored(ms2, bot, ss.last().uid));
    }
}

proof fn lemma_deletes_updates_skip(
    a: Seq<MirrorView>,
    m: MirrorView,
    b: Seq<MirrorView>,
    ss: Seq<SourceView>,
    bot: u128,
    now: int,
)
    requires
        mirror_key(m, bot) is None,
    ensures
        deletes(a + seq![m] + b, ss, bot) == deletes(a + b, ss, bot),
        updates(a + seq![m] + b, ss, bot, now) == updates(a + b, ss, bot, now),
    decreases b.len(),
{
    if b.len() == 0 {
        assert(a + seq![m] + b =~= a.push(m));
        assert(a.push(m).drop_last() =~= a);
        assert(a + b =~= a);
    } else {
        let b2 = b.drop_last();
        lemma_deletes_updates_skip(a, m, b2, ss, bot, now);
        assert((a + seq![m] + b).drop_last() =~= a + seq![m] + b2);
        assert((a + b).drop_last() =~= a + b2);
        assert((a + seq![m] + b).last() == b.last());
        assert((a + b).last() == b.last());
    }
}

/// A mirror event whose description carries no correlation key changes
/// nothing in the plan, wherever it stands in the mirror's list: it is never
/// deleted, never updated, and never stands for a source event.
pub proof fn lemma_keyless_mirror_ignored(
    ss: Seq<SourceView>,
    a: Seq<MirrorView>,
    m: MirrorView,
    b: Seq<MirrorView>,
    bot: u128,
    now: int,
)
    requires
        correlation_key(m.description) is None,
    ensures
        plan_of(ss, a + seq![m] + b, bot, now) == plan_of(ss, a + b, bot, now),
{
    assert forall|u: Seq<char>| mirrored(a + seq![m] + b, bot, u) == mirrored(a + b, bot, u) by {
        lemma_mirrored_skip(a, m, b, bot, u);
    }
    lemma_creates_same(ss, a + seq![m] + b, a + b, bot, now);
    lemma_deletes_updates_skip(a, m, b, ss, bot, now);
}

} // verus!
