//! A second cycle, run on the mirror as the first cycle's plan left it,
//! finds nothing to do.
use crate::compare::equivalent;
use crate::events::{
    correlation_key, is_last_marker, key_marker, mirror_description, mirror_wf, payload_of,
    source_wf, text_or_empty, MirrorView, PayloadView, SourceView, UpdateView,
};
use crate::instant::{day_of, time_of_day, valid_instant, weekday_of, SECS_PER_DAY};
use crate::laws::{lemma_created_is_equivalent, mirror_from};
use crate::recurrence::{
    days_of, is_next_occurrence, is_occurrence, lemma_compose, lemma_next_exists, lemma_split,
    RuleView,
};
use crate::sync::{
    created, creates, deletes, first_source, is_first_source, lemma_first_unique, mirror_key,
    mirrored, next_occurrence, plan_of, sourced, update_of, updates, EditView, PlanView,
};
use vstd::prelude::*;

verus! {

/// A mirror event after an update has been applied to it.
pub open spec fn with_update(m: MirrorView, u: UpdateView) -> MirrorView {
    MirrorView { name: u.name, description: u.description, start: u.start, end: u.end, rule: u.rule, ..m }
}

/// The last edit of the list for the event `id`.
pub open spec fn find_edit(edits: Seq<EditView>, id: Seq<char>) -> Option<UpdateView>
    decreases edits.len(),
{
    if edits.len() == 0 {
        None
    } else if edits.last().id == id {
        Some(edits.last().event)
    } else {
        find_edit(edits.drop_last(), id)
    }
}

/// The mirror's events once a plan's deletions and edits, which name events
/// by id, have been carried out.
pub open spec fn apply_to(ms: Seq<MirrorView>, p: PlanView) -> Seq<MirrorView>
    decreases ms.len(),
{
    if ms.len() == 0 {
        Seq::empty()
    } else {
        let rest = apply_to(ms.drop_last(), p);
        let m = ms.last();
        if p.to_delete.contains(m.id) {
            rest
        } else {
            rest.push(
                match find_edit(p.to_update, m.id) {
                    Some(u) => with_update(m, u),
                    None => m,
                },
            )
        }
    }
}

/// The mirror events that created payloads become, under the ids the mirror
/// gave them.
pub open spec fn made(cs: Seq<PayloadView>, ids: Seq<Seq<char>>, bot: u128) -> Seq<MirrorView> {
    Seq::new(cs.len(), |i: int| mirror_from(cs[i], ids[i], bot))
}

/// The mirror after the plan of one cycle has been carried out.
pub open spec fn after_plan(
    ss: Seq<SourceView>,
    ms: Seq<MirrorView>,
    bot: u128,
    now: int,
    ids: Seq<Seq<char>>,
) -> Seq<MirrorView> {
    let p = plan_of(ss, ms, bot, now);
    apply_to(ms, p) + made(p.to_create, ids, bot)
}

pub open spec fn has_no_marker(u: Seq<char>) -> bool {
    forall|i: int| 0 <= i < u.len() ==> u[i] != '#'
}

/// A repeating event ends on the day it starts.
pub open spec fn keeps_to_its_day(s: SourceView) -> bool {
    s.weekly_on is Some ==> {
        &&& 0 <= s.end_at - s.start_at
        &&& time_of_day(s.start_at) + (s.end_at - s.start_at) < SECS_PER_DAY
    }
}

/// Source events with distinct uids free of `#`, each repeating event kept
/// to one day.
pub open spec fn sources_settle(ss: Seq<SourceView>) -> bool {
    &&& forall|i: int| 0 <= i < ss.len() ==> source_wf(#[trigger] ss[i])
    &&& forall|i: int| 0 <= i < ss.len() ==> has_no_marker(#[trigger] ss[i].uid)
    &&& forall|i: int| 0 <= i < ss.len() ==> keeps_to_its_day(#[trigger] ss[i])
    &&& forall|i: int, j: int| 0 <= i < ss.len() && 0 <= j < ss.len() && ss[i].uid == ss[j].uid ==> i == j
}

/// Mirror events with distinct ids, within the supported range.
pub open spec fn mirrors_settle(ms: Seq<MirrorView>) -> bool {
    &&& forall|j: int| 0 <= j < ms.len() ==> mirror_wf(#[trigger] ms[j])
    &&& forall|i: int, j: int| 0 <= i < ms.len() && 0 <= j < ms.len() && ms[i].id == ms[j].id ==> i == j
}

pub open spec fn deleted(m: MirrorView, ss: Seq<SourceView>, bot: u128) -> bool {
    mirror_key(m, bot) matches Some(k) && !sourced(ss, k)
}

pub open spec fn edit_of(m: MirrorView, ss: Seq<SourceView>, bot: u128, now: int) -> Option<UpdateView> {
    match mirror_key(m, bot) {
        Some(k) => if sourced(ss, k) && !equivalent(payload_of(first_source(ss, k)), m) {
            Some(update_of(first_source(ss, k), m, now))
        } else {
            None
        },
        None => None,
    }
}

/// The event stands for a source event that it already represents, or for none.
pub open spec fn settled(x: MirrorView, ss: Seq<SourceView>, bot: u128) -> bool {
    mirror_key(x, bot) matches Some(k) ==> sourced(ss, k) && equivalent(payload_of(first_source(ss, k)), x)
}

proof fn lemma_key_of_description(s: SourceView)
    requires
        has_no_marker(s.uid),
    ensures
        correlation_key(mirror_description(s)) == Some(s.uid),
{
    let d = mirror_description(s);
    let pre = text_or_empty(s.description) + key_marker();
    let i = pre.len() - 1;
    assert(d == pre + s.uid);
    assert(d[i] == '#');
    assert forall|j: int| i < j < d.len() implies d[j] != '#' by {
        assert(d[j] == s.uid[j - pre.len()]);
    }
    assert(is_last_marker(d, i));
    let k = choose|k: int| is_last_marker(d, k);
    if k < i {
        assert(d[i] != '#');
    } else if i < k {
        assert(d[k] != '#');
    }
    assert(d.subrange(i + 1, d.len() as int) =~= s.uid);
}

proof fn lemma_first_is(ss: Seq<SourceView>, i: int)
    requires
        sources_settle(ss),
        0 <= i < ss.len(),
    ensures
        first_source(ss, ss[i].uid) == ss[i],
        sourced(ss, ss[i].uid),
{
    assert(is_first_source(ss, ss[i].uid, i));
    lemma_first_unique(ss, ss[i].uid, i);
}

proof fn lemma_sourced_first(ss: Seq<SourceView>, k: Seq<char>)
    requires
        sources_settle(ss),
        sourced(ss, k),
    ensures
        exists|i: int| 0 <= i < ss.len() && ss[i].uid == k && first_source(ss, k) == ss[i],
{
    let i = choose|i: int| 0 <= i < ss.len() && ss[i].uid == k;
    lemma_first_is(ss, i);
}

/// A repeating event moved to an occurrence of its rule, with its length kept,
/// still represents the payload.
proof fn lemma_moved(s: SourceView, t: int, id: Seq<char>, creator_id: u128)
    requires
        source_wf(s),
        keeps_to_its_day(s),
        payload_of(s).rule matches Some(r) && is_occurrence(r, t),
    ensures
        ({
            let p = payload_of(s);
            let r = p.rule->Some_0;
            equivalent(
                p,
                MirrorView {
                    id,
                    name: p.name,
                    description: p.description,
                    start: t,
                    end: t + (s.end_at - s.start_at),
                    rule: Some(RuleView { start: t, ..r }),
                    creator_id,
                },
            )
        }),
{
    let p = payload_of(s);
    let r = p.rule->Some_0;
    let len = s.end_at - s.start_at;
    lemma_split(t);
    lemma_split(s.start_at);
    assert(t + len == day_of(t) * SECS_PER_DAY + (time_of_day(t) + len));
    lemma_compose(day_of(t), time_of_day(t) + len);
    assert(s.end_at == day_of(s.start_at) * SECS_PER_DAY + (time_of_day(s.start_at) + len));
    lemma_compose(day_of(s.start_at), time_of_day(s.start_at) + len);
    assert(weekday_of(t + len) == weekday_of(t));
    assert(days_of(r)[0] as int == weekday_of(t + len));
}

proof fn lemma_occurrence_of(r: RuleView, from: int, now: int)
    requires
        crate::recurrence::has_valid_day(r),
    ensures
        is_next_occurrence(r, from, now, next_occurrence(r, from, now)),
{
    lemma_next_exists(r, from, now);
}

/// What a cycle creates for a source event represents it in the next cycle.
proof fn lemma_created_settled(ss: Seq<SourceView>, i: int, now: int, id: Seq<char>, bot: u128)
    requires
        sources_settle(ss),
        0 <= i < ss.len(),
    ensures
        settled(mirror_from(created(ss[i], now), id, bot), ss, bot),
        mirror_key(mirror_from(created(ss[i], now), id, bot), bot) == Some(ss[i].uid),
{
    let s = ss[i];
    assert(source_wf(s) && has_no_marker(s.uid) && keeps_to_its_day(s));
    lemma_key_of_description(s);
    lemma_first_is(ss, i);
    let p = payload_of(s);
    match p.rule {
        Some(r) => {
            if s.start_at <= now {
                assert(days_of(r)[0] < 7);
                lemma_occurrence_of(r, s.start_at, now);
                lemma_moved(s, next_occurrence(r, s.start_at, now), id, bot);
            } else {
                lemma_created_is_equivalent(s, id, bot);
            }
        },
        None => {
            lemma_created_is_equivalent(s, id, bot);
        },
    }
}

/// An edited mirror event represents its source event in the next cycle.
proof fn lemma_edited_settled(ss: Seq<SourceView>, m: MirrorView, bot: u128, now: int)
    requires
        sources_settle(ss),
        mirrors_settle(seq![m]),
        edit_of(m, ss, bot, now) is Some,
    ensures
        settled(with_update(m, edit_of(m, ss, bot, now)->Some_0), ss, bot),
        mirror_key(with_update(m, edit_of(m, ss, bot, now)->Some_0), bot) == mirror_key(m, bot),
{
    let k = mirror_key(m, bot)->Some_0;
    lemma_sourced_first(ss, k);
    let i = choose|i: int| 0 <= i < ss.len() && ss[i].uid == k && first_source(ss, k) == ss[i];
    let s = ss[i];
    assert(source_wf(s) && has_no_marker(s.uid) && keeps_to_its_day(s));
    lemma_key_of_description(s);
    assert(mirror_wf(seq![m][0]));
    let x = with_update(m, edit_of(m, ss, bot, now)->Some_0);
    match payload_of(s).rule {
        Some(r) => {
            assert(days_of(r)[0] < 7);
            lemma_occurrence_of(r, m.start, now);
            let t = next_occurrence(r, m.start, now);
            lemma_moved(s, t, m.id, m.creator_id);
        },
        None => {},
    }
}

} // verus!

verus! {

proof fn lemma_deletes_absent(ms: Seq<MirrorView>, ss: Seq<SourceView>, bot: u128, id: Seq<char>)
    requires
        forall|j: int| 0 <= j < ms.len() ==> ms[j].id != id,
    ensures
        !deletes(ms, ss, bot).contains(id),
    decreases ms.len(),
{
    if ms.len() > 0 {
        lemma_deletes_absent(ms.drop_last(), ss, bot, id);
        assert(ms.last().id != id);
        let d = deletes(ms.drop_last(), ss, bot);
        assert(!d.push(ms.last().id).contains(id)) by {
            if d.push(ms.last().id).contains(id) {
                let n = choose|n: int| 0 <= n < d.push(ms.last().id).len() && d.push(ms.last().id)[n] == id;
                if n < d.len() {
                    assert(d[n] == id);
                }
            }
        }
    }
}

proof fn lemma_deletes_member(ms: Seq<MirrorView>, ss: Seq<SourceView>, bot: u128, j: int)
    requires
        0 <= j < ms.len(),
        forall|a: int, b: int| 0 <= a < ms.len() && 0 <= b < ms.len() && ms[a].id == ms[b].id ==> a == b,
    ensures
        deletes(ms, ss, bot).contains(ms[j].id) == deleted(ms[j], ss, bot),
    decreases ms.len(),
{
    let rest = ms.drop_last();
    let d = deletes(rest, ss, bot);
    let last = ms.last();
    if j == ms.len() - 1 {
        lemma_deletes_absent(rest, ss, bot, last.id);
        if deleted(last, ss, bot) {
            assert(d.push(last.id)[d.len() as int] == last.id);
        }
    } else {
        lemma_deletes_member(rest, ss, bot, j);
        assert(rest[j] == ms[j]);
        if deleted(last, ss, bot) {
            assert(last.id != ms[j].id);
            if d.push(last.id).contains(ms[j].id) {
                let n = choose|n: int| 0 <= n < d.push(last.id).len() && d.push(last.id)[n] == ms[j].id;
                assert(n < d.len());
                assert(d[n] == ms[j].id);
            }
            if d.contains(ms[j].id) {
                let n = choose|n: int| 0 <= n < d.len() && d[n] == ms[j].id;
                assert(d.push(last.id)[n] == ms[j].id);
            }
        }
    }
}

proof fn lemma_updates_absent(ms: Seq<MirrorView>, ss: Seq<SourceView>, bot: u128, now: int, id: Seq<char>)
    requires
        forall|j: int| 0 <= j < ms.len() ==> ms[j].id != id,
    ensures
        find_edit(updates(ms, ss, bot, now), id) is None,
    decreases ms.len(),
{
    if ms.len() > 0 {
        lemma_updates_absent(ms.drop_last(), ss, bot, now, id);
        let u = updates(ms.drop_last(), ss, bot, now);
        assert(ms.last().id != id);
        let e = EditView { id: ms.last().id, event: update_of(first_source(ss, mirror_key(ms.last(), bot)->Some_0), ms.last(), now) };
        assert(u.push(e).drop_last() =~= u);
    }
}

proof fn lemma_updates_member(ms: Seq<MirrorView>, ss: Seq<SourceView>, bot: u128, now: int, j: int)
    requires
        0 <= j < ms.len(),
        forall|a: int, b: int| 0 <= a < ms.len() && 0 <= b < ms.len() && ms[a].id == ms[b].id ==> a == b,
    ensures
        find_edit(updates(ms, ss, bot, now), ms[j].id) == edit_of(ms[j], ss, bot, now),
    decreases ms.len(),
{
    let rest = ms.drop_last();
    let u = updates(rest, ss, bot, now);
    let last = ms.last();
    let e = EditView { id: last.id, event: update_of(first_source(ss, mirror_key(last, bot)->Some_0), last, now) };
    assert(u.push(e).drop_last() =~= u);
    if j == ms.len() - 1 {
        lemma_updates_absent(rest, ss, bot, now, last.id);
    } else {
        lemma_updates_member(rest, ss, bot, now, j);
        assert(rest[j] == ms[j]);
        assert(last.id != ms[j].id);
    }
}

proof fn lemma_find_edit_none(edits: Seq<EditView>, id: Seq<char>)
    requires
        find_edit(edits, id) is None,
    ensures
        forall|i: int| 0 <= i < edits.len() ==> edits[i].id != id,
    decreases edits.len(),
{
    if edits.len() > 0 {
        let rest = edits.drop_last();
        lemma_find_edit_none(rest, id);
        assert forall|i: int| 0 <= i < edits.len() implies edits[i].id != id by {
            if i < rest.len() {
                assert(edits[i] == rest[i]);
            }
        }
    }
}

/// A mirror event whose description carries no correlation key is never
/// touched: where the mirror's ids are distinct, its id stands in no deletion
/// and in no edit of the plan, however much it resembles a source event.
pub proof fn lemma_keyless_mirror_untouched(
    ss: Seq<SourceView>,
    ms: Seq<MirrorView>,
    bot: u128,
    now: int,
    j: int,
)
    requires
        0 <= j < ms.len(),
        forall|a: int, b: int| 0 <= a < ms.len() && 0 <= b < ms.len() && ms[a].id == ms[b].id ==> a == b,
        correlation_key(ms[j].description) is None,
    ensures
        !plan_of(ss, ms, bot, now).to_delete.contains(ms[j].id),
        forall|i: int| 0 <= i < plan_of(ss, ms, bot, now).to_update.len()
            ==> (#[trigger] plan_of(ss, ms, bot, now).to_update[i]).id != ms[j].id,
{
    lemma_deletes_member(ms, ss, bot, j);
    lemma_updates_member(ms, ss, bot, now, j);
    lemma_find_edit_none(updates(ms, ss, bot, now), ms[j].id);
}

/// What the plan's deletions and edits leave of the first `k` mirror events:
/// each settled, and each kept key still present.
proof fn lemma_apply_prefix(ss: Seq<SourceView>, ms: Seq<MirrorView>, bot: u128, now: int, k: int)
    requires
        sources_settle(ss),
        mirrors_settle(ms),
        0 <= k <= ms.len(),
    ensures
        forall|x: int| 0 <= x < apply_to(ms.subrange(0, k), plan_of(ss, ms, bot, now)).len()
            ==> settled(#[trigger] apply_to(ms.subrange(0, k), plan_of(ss, ms, bot, now))[x], ss, bot),
        forall|j: int| 0 <= j < k && !deleted(ms[j], ss, bot) && mirror_key(ms[j], bot) is Some ==> exists|x: int|
            0 <= x < apply_to(ms.subrange(0, k), plan_of(ss, ms, bot, now)).len()
                && #[trigger] mirror_key(apply_to(ms.subrange(0, k), plan_of(ss, ms, bot, now))[x], bot)
                == mirror_key(ms[j], bot),
    decreases k,
{
    let p = plan_of(ss, ms, bot, now);
    if k > 0 {
        lemma_apply_prefix(ss, ms, bot, now, k - 1);
        let pre = ms.subrange(0, k);
        assert(pre.drop_last() =~= ms.subrange(0, k - 1));
        assert(pre.last() == ms[k - 1]);
        let m = ms[k - 1];
        let rest = apply_to(ms.subrange(0, k - 1), p);
        let now_list = apply_to(pre, p);
        lemma_deletes_member(ms, ss, bot, k - 1);
        lemma_updates_member(ms, ss, bot, now, k - 1);
        if !deleted(m, ss, bot) {
            let x = match find_edit(p.to_update, m.id) {
                Some(u) => with_update(m, u),
                None => m,
            };
            assert(now_list == rest.push(x));
            assert(mirror_wf(ms[k - 1]));
            assert(mirrors_settle(seq![m])) by {
                assert(seq![m][0] == ms[k - 1]);
            }
            if edit_of(m, ss, bot, now) is Some {
                lemma_edited_settled(ss, m, bot, now);
            } else {
                assert(settled(m, ss, bot));
            }
            assert(settled(x, ss, bot));
            assert(mirror_key(x, bot) == mirror_key(m, bot));
            assert forall|i: int| 0 <= i < now_list.len() implies settled(#[trigger] now_list[i], ss, bot) by {
                if i < rest.len() {
                    assert(now_list[i] == rest[i]);
                }
            }
            assert forall|j: int| 0 <= j < k && !deleted(ms[j], ss, bot) && mirror_key(ms[j], bot) is Some implies exists|i: int|
                0 <= i < now_list.len() && #[trigger] mirror_key(now_list[i], bot) == mirror_key(ms[j], bot) by {
                if j < k - 1 {
                    let i = choose|i: int| 0 <= i < rest.len() && #[trigger] mirror_key(rest[i], bot) == mirror_key(ms[j], bot);
                    assert(now_list[i] == rest[i]);
                } else {
                    assert(now_list[rest.len() as int] == x);
                }
            }
        } else {
            assert(now_list == rest);
        }
    } else {
        assert(ms.subrange(0, 0) =~= Seq::<MirrorView>::empty());
    }
}

proof fn lemma_creates_from(ss: Seq<SourceView>, ms: Seq<MirrorView>, bot: u128, now: int)
    ensures
        forall|c: int| 0 <= c < creates(ss, ms, bot, now).len() ==> exists|i: int|
            0 <= i < ss.len() && #[trigger] creates(ss, ms, bot, now)[c] == created(ss[i], now),
        forall|i: int| 0 <= i < ss.len() && !mirrored(ms, bot, ss[i].uid) ==> exists|c: int|
            0 <= c < creates(ss, ms, bot, now).len() && #[trigger] creates(ss, ms, bot, now)[c] == created(ss[i], now),
    decreases ss.len(),
{
    if ss.len() > 0 {
        let rest = ss.drop_last();
        lemma_creates_from(rest, ms, bot, now);
        let cr = creates(rest, ms, bot, now);
        let all = creates(ss, ms, bot, now);
        assert forall|c: int| 0 <= c < all.len() implies exists|i: int|
            0 <= i < ss.len() && #[trigger] all[c] == created(ss[i], now) by {
            if c < cr.len() {
                let i = choose|i: int| 0 <= i < rest.len() && #[trigger] cr[c] == created(rest[i], now);
                assert(all[c] == cr[c]);
                assert(ss[i] == rest[i]);
            } else {
                assert(all[c] == created(ss[ss.len() - 1], now));
            }
        }
        assert forall|i: int| 0 <= i < ss.len() && !mirrored(ms, bot, ss[i].uid) implies exists|c: int|
            0 <= c < all.len() && #[trigger] all[c] == created(ss[i], now) by {
            if i < rest.len() {
                assert(rest[i] == ss[i]);
                let c = choose|c: int| 0 <= c < cr.len() && #[trigger] cr[c] == created(rest[i], now);
                assert(all[c] == cr[c]);
            } else {
                assert(all[cr.len() as int] == created(ss[i], now));
            }
        }
    }
}

proof fn lemma_creates_empty(ss: Seq<SourceView>, ms: Seq<MirrorView>, bot: u128, now: int)
    requires
        forall|i: int| 0 <= i < ss.len() ==> mirrored(ms, bot, #[trigger] ss[i].uid),
    ensures
        creates(ss, ms, bot, now) == Seq::<PayloadView>::empty(),
    decreases ss.len(),
{
    if ss.len() > 0 {
        let rest = ss.drop_last();
        assert forall|i: int| 0 <= i < rest.len() implies mirrored(ms, bot, #[trigger] rest[i].uid) by {
            assert(rest[i] == ss[i]);
        }
        lemma_creates_empty(rest, ms, bot, now);
        assert(mirrored(ms, bot, ss[ss.len() - 1].uid));
    }
}

proof fn lemma_settled_lists_empty(ms: Seq<MirrorView>, ss: Seq<SourceView>, bot: u128, now: int)
    requires
        forall|x: int| 0 <= x < ms.len() ==> settled(#[trigger] ms[x], ss, bot),
    ensures
        deletes(ms, ss, bot) == Seq::<Seq<char>>::empty(),
        updates(ms, ss, bot, now) == Seq::<EditView>::empty(),
    decreases ms.len(),
{
    if ms.len() > 0 {
        let rest = ms.drop_last();
        assert forall|x: int| 0 <= x < rest.len() implies settled(#[trigger] rest[x], ss, bot) by {
            assert(rest[x] == ms[x]);
        }
        lemma_settled_lists_empty(rest, ss, bot, now);
        assert(settled(ms[ms.len() - 1], ss, bot));
    }
}

/// Running the diff again on the mirror as its own plan left it (deletions
/// and edits by id, creations under any ids the mirror gives them) yields an
/// empty plan. This holds for source events with distinct uids free of `#`
/// whose repetitions end on the day they start, and for mirror events with
/// distinct ids.
pub proof fn lemma_second_cycle_is_empty(
    ss: Seq<SourceView>,
    ms: Seq<MirrorView>,
    bot: u128,
    now: int,
    ids: Seq<Seq<char>>,
)
    requires
        sources_settle(ss),
        mirrors_settle(ms),
        valid_instant(now),
    ensures
        plan_of(ss, after_plan(ss, ms, bot, now, ids), bot, now) == (PlanView {
            to_create: Seq::empty(),
            to_delete: Seq::empty(),
            to_update: Seq::empty(),
        }),
{
    let p = plan_of(ss, ms, bot, now);
    let kept = apply_to(ms, p);
    let fresh = made(p.to_create, ids, bot);
    let next = after_plan(ss, ms, bot, now, ids);
    assert(next == kept + fresh);
    lemma_apply_prefix(ss, ms, bot, now, ms.len() as int);
    assert(ms.subrange(0, ms.len() as int) =~= ms);
    lemma_creates_from(ss, ms, bot, now);
    assert forall|x: int| 0 <= x < next.len() implies settled(#[trigger] next[x], ss, bot) by {
        if x < kept.len() {
            assert(next[x] == kept[x]);
        } else {
            let c = x - kept.len();
            assert(next[x] == fresh[c]);
            let i = choose|i: int| 0 <= i < ss.len() && #[trigger] p.to_create[c] == created(ss[i], now);
            lemma_created_settled(ss, i, now, ids[c], bot);
        }
    }
    assert forall|i: int| 0 <= i < ss.len() implies mirrored(next, bot, #[trigger] ss[i].uid) by {
        if mirrored(ms, bot, ss[i].uid) {
            let j = choose|j: int| 0 <= j < ms.len() && mirror_key(ms[j], bot) == Some(ss[i].uid);
            lemma_first_is(ss, i);
            let x = choose|x: int| 0 <= x < kept.len() && #[trigger] mirror_key(kept[x], bot) == mirror_key(ms[j], bot);
            assert(next[x] == kept[x]);
        } else {
            let c = choose|c: int| 0 <= c < p.to_create.len() && #[trigger] p.to_create[c] == created(ss[i], now);
            lemma_created_settled(ss, i, now, ids[c], bot);
            assert(next[kept.len() + c] == fresh[c]);
        }
    }
    lemma_creates_empty(ss, next, bot, now);
    lemma_settled_lists_empty(next, ss, bot, now);
}

} // verus!
