//! What holds of the engine over whole runs of events.

use vstd::prelude::*;
use crate::engine::{
    all_pass, report_path, request_for, step, Cursors, EventKind, Observed, Report, Request,
};
use crate::path::passes_filter;

verus! {

/// What a faithful observation yields for `req` of a file that holds `content`.
/// A cursor past the end (the file was cut short) reads nothing.
pub open spec fn observe(req: Request, content: Seq<u8>) -> Observed {
    match req {
        Request::Nothing => Observed::Skipped,
        Request::OpenAtEnd => Observed::Opened(content.len() as u64),
        Request::ReadFrom(c) => Observed::Read(
            if c <= content.len() {
                content.subrange(c as int, content.len() as int)
            } else {
                Seq::empty()
            },
        ),
    }
}

/// The bytes that a report carries, if it carries any.
pub open spec fn bytes_of(r: Option<Report>) -> Seq<u8> {
    match r {
        Some(Report::Content(_, _, b)) => b,
        _ => Seq::empty(),
    }
}

/// A report as a sequence of at most one.
pub open spec fn reports_of(r: Option<Report>) -> Seq<Report> {
    match r {
        Some(x) => seq![x],
        None => Seq::empty(),
    }
}

/// The registry after a run of events, each with what was observed for it,
/// and the reports, in order.
pub open spec fn run(reg: Cursors, ext: Seq<char>, events: Seq<(EventKind, Seq<char>, Observed)>) -> (
    Cursors,
    Seq<Report>,
)
    decreases events.len(),
{
    if events.len() == 0 {
        (reg, Seq::empty())
    } else {
        let (kind, p, o) = events[0];
        let (next, rep) = step(reg, ext, kind, p, o);
        let (last, rest) = run(next, ext, events.drop_first());
        (last, reports_of(rep) + rest)
    }
}

/// The file at `p` grows: after each append it holds the first `cuts[i]` bytes
/// of `whole`, and a Modified event on `p` is handled with what a faithful read
/// yields. The registry after, and the bytes reported, in order.
pub open spec fn follow_growth(
    reg: Cursors,
    ext: Seq<char>,
    p: Seq<char>,
    whole: Seq<u8>,
    cuts: Seq<nat>,
) -> (Cursors, Seq<u8>)
    decreases cuts.len(),
{
    if cuts.len() == 0 {
        (reg, Seq::empty())
    } else {
        let now = whole.take(cuts[0] as int);
        let seen = observe(request_for(reg, ext, EventKind::Modified, p), now);
        let (next, rep) = step(reg, ext, EventKind::Modified, p, seen);
        let (last, rest) = follow_growth(next, ext, p, whole, cuts.drop_first());
        (last, bytes_of(rep) + rest)
    }
}

/// Lengths that never shrink, from `start`, and never pass the end of `whole`.
pub open spec fn grows_from(start: nat, cuts: Seq<nat>, whole: Seq<u8>) -> bool {
    &&& start <= whole.len()
    &&& forall|i: int| 0 <= i < cuts.len() ==> cuts[i] <= whole.len()
    &&& cuts.len() > 0 ==> start <= cuts[0]
    &&& forall|i: int| 0 < i < cuts.len() ==> cuts[i - 1] <= #[trigger] cuts[i]
}

/// The length that the file ends at.
pub open spec fn final_len(start: nat, cuts: Seq<nat>) -> nat {
    if cuts.len() == 0 {
        start
    } else {
        cuts.last()
    }
}

/// However a tracked file grows by appends, the bytes reported for it are
/// exactly the bytes appended, in order, once each and with no gap; its cursor
/// ends at the file's end.
pub proof fn lemma_appends_reported_exactly(
    reg: Cursors,
    ext: Seq<char>,
    p: Seq<char>,
    whole: Seq<u8>,
    cuts: Seq<nat>,
)
    requires
        passes_filter(p, ext),
        reg.contains_key(p),
        grows_from(reg[p].cursor as nat, cuts, whole),
        whole.len() <= u64::MAX,
    ensures
        ({
            let (last, out) = follow_growth(reg, ext, p, whole, cuts);
            let start = reg[p].cursor as int;
            let end = final_len(reg[p].cursor as nat, cuts) as int;
            &&& start <= end
            &&& out == whole.subrange(start, end)
            &&& last.contains_key(p)
            &&& last[p].cursor == end
        }),
    decreases cuts.len(),
{
    let start = reg[p].cursor as int;
    if cuts.len() == 0 {
        assert(whole.subrange(start, start) =~= Seq::<u8>::empty());
    } else {
        let n = cuts[0] as int;
        let now = whole.take(n);
        assert(now.subrange(start, n) =~= whole.subrange(start, n));
        let seen = observe(request_for(reg, ext, EventKind::Modified, p), now);
        let (next, rep) = step(reg, ext, EventKind::Modified, p, seen);
        assert(next.contains_key(p) && next[p].cursor == n);
        assert(bytes_of(rep) == whole.subrange(start, n));
        let rest = cuts.drop_first();
        assert forall|i: int| 0 < i < rest.len() implies rest[i - 1] <= #[trigger] rest[i] by {
            assert(cuts[i] <= cuts[i + 1]);
        }
        lemma_appends_reported_exactly(next, ext, p, whole, rest);
        let end = final_len(n as nat, rest) as int;
        assert(final_len(n as nat, rest) == final_len(start as nat, cuts));
        assert(whole.subrange(start, n) + whole.subrange(n, end) =~= whole.subrange(start, end));
    }
}

/// A file found when watching begins is tracked from its end: of what it held
/// then nothing is ever reported, and of what is appended after, everything.
pub proof fn lemma_history_never_reported(
    reg: Cursors,
    ext: Seq<char>,
    p: Seq<char>,
    whole: Seq<u8>,
    start: nat,
    cuts: Seq<nat>,
)
    requires
        passes_filter(p, ext),
        grows_from(start, cuts, whole),
        whole.len() <= u64::MAX,
    ensures
        ({
            let at_start = whole.take(start as int);
            let seen = observe(request_for(reg, ext, EventKind::Created, p), at_start);
            let seeded = step(reg, ext, EventKind::Created, p, seen).0;
            &&& seeded.contains_key(p)
            &&& seeded[p].cursor == start
            &&& follow_growth(seeded, ext, p, whole, cuts).1 == whole.subrange(
                start as int,
                final_len(start, cuts) as int,
            )
        }),
{
    let at_start = whole.take(start as int);
    let seen = observe(request_for(reg, ext, EventKind::Created, p), at_start);
    let seeded = step(reg, ext, EventKind::Created, p, seen).0;
    assert(seeded[p].cursor == start);
    lemma_appends_reported_exactly(seeded, ext, p, whole, cuts);
}

/// A Modified event on a path that is not tracked changes nothing and reports
/// nothing, whatever was observed.
pub proof fn lemma_untracked_modify_is_silent(reg: Cursors, ext: Seq<char>, p: Seq<char>, o: Observed)
    requires
        !reg.contains_key(p),
    ensures
        step(reg, ext, EventKind::Modified, p, o) == (reg, None::<Report>),
{
}

/// No event but a Created one on `p` makes an untracked `p` tracked, and while
/// `p` is untracked no content of it is reported.
proof fn lemma_untracked_stays_silent(
    reg: Cursors,
    ext: Seq<char>,
    p: Seq<char>,
    events: Seq<(EventKind, Seq<char>, Observed)>,
)
    requires
        !reg.contains_key(p),
        forall|i: int|
            0 <= i < events.len() ==> !(events[i].0 == EventKind::Created && events[i].1 == p),
    ensures
        ({
            let (last, out) = run(reg, ext, events);
            &&& !last.contains_key(p)
            &&& forall|i: int|
                0 <= i < out.len() ==> !(#[trigger] out[i] is Content && report_path(out[i]) == p)
        }),
    decreases events.len(),
{
    if events.len() > 0 {
        let (kind, q, o) = events[0];
        let (next, rep) = step(reg, ext, kind, q, o);
        assert(!next.contains_key(p));
        let rest = events.drop_first();
        assert forall|i: int| 0 <= i < rest.len() implies !(rest[i].0 == EventKind::Created
            && rest[i].1 == p) by {
            assert(rest[i] == events[i + 1]);
        }
        lemma_untracked_stays_silent(next, ext, p, rest);
        let out = run(reg, ext, events).1;
        let tail = run(next, ext, rest).1;
        assert(out == reports_of(rep) + tail);
        assert forall|i: int| 0 <= i < out.len() implies !(#[trigger] out[i] is Content
            && report_path(out[i]) == p) by {
            if i >= reports_of(rep).len() {
                assert(out[i] == tail[i - reports_of(rep).len()]);
            }
        }
    }
}

/// Once a tracked path has been removed, no content of it is reported, however
/// many events follow, until a Created event on it tracks it again.
pub proof fn lemma_removed_stays_silent(
    reg: Cursors,
    ext: Seq<char>,
    p: Seq<char>,
    o: Observed,
    events: Seq<(EventKind, Seq<char>, Observed)>,
)
    requires
        all_pass(reg, ext),
        forall|i: int|
            0 <= i < events.len() ==> !(events[i].0 == EventKind::Created && events[i].1 == p),
    ensures
        ({
            let after = step(reg, ext, EventKind::Removed, p, o).0;
            let out = run(after, ext, events).1;
            &&& !after.contains_key(p)
            &&& forall|i: int|
                0 <= i < out.len() ==> !(#[trigger] out[i] is Content && report_path(out[i]) == p)
        }),
{
    let after = step(reg, ext, EventKind::Removed, p, o).0;
    assert(!after.contains_key(p));
    lemma_untracked_stays_silent(after, ext, p, events);
}

/// A path that fails the filter is never the subject of a report, whatever
/// the events and whatever was observed.
pub proof fn lemma_filtered_out_never_reported(
    reg: Cursors,
    ext: Seq<char>,
    events: Seq<(EventKind, Seq<char>, Observed)>,
)
    requires
        all_pass(reg, ext),
    ensures
        ({
            let (last, out) = run(reg, ext, events);
            &&& all_pass(last, ext)
            &&& forall|i: int| 0 <= i < out.len() ==> passes_filter(#[trigger] report_path(out[i]), ext)
        }),
    decreases events.len(),
{
    if events.len() > 0 {
        let (kind, q, o) = events[0];
        let (next, rep) = step(reg, ext, kind, q, o);
        assert(all_pass(next, ext));
        let rest = events.drop_first();
        lemma_filtered_out_never_reported(next, ext, rest);
        let out = run(reg, ext, events).1;
        let tail = run(next, ext, rest).1;
        assert(out == reports_of(rep) + tail);
        assert forall|i: int| 0 <= i < out.len() implies passes_filter(
            #[trigger] report_path(out[i]),
            ext,
        ) by {
            if i >= reports_of(rep).len() {
                assert(out[i] == tail[i - reports_of(rep).len()]);
            }
        }
    }
}

} // verus!
