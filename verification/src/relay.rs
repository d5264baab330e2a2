//! Byte accounting for the bidirectional relay.
//!
//! A relayed connection runs two independent copy directions. Each
//! direction is a small machine: it accounts the bytes it moved and
//! records how it ended (end-of-stream or I/O failure). One direction's
//! end never touches the other — half-close support — and the relay's
//! outcome, with both exact byte counts, is read only once both
//! directions have ended; only then may both streams be shut down.

use vstd::prelude::*;

verus! {

/// What has become of one copy direction.
#[derive(Clone, Copy, Debug, PartialEq, Eq, Structural)]
pub enum DirState {
    Active,
    SawEof,
    Failed,
}

/// Running account of one copy direction.
#[derive(Clone, Copy, Debug, PartialEq, Eq, Structural)]
pub struct DirProgress {
    pub bytes: u64,
    pub state: DirState,
}

/// One observation made by a copy direction: a chunk of bytes moved,
/// the source's end-of-stream, or an I/O failure on its read/write pair.
#[derive(Clone, Copy, Debug, PartialEq, Eq, Structural)]
pub enum DirEvent {
    Data(u64),
    SourceClosed,
    IoFailed,
}

/// How a direction advances on one event. A direction that has already
/// ended ignores further events; byte counts saturate rather than wrap,
/// though the executable steps never reach the saturation point.
pub open spec fn spec_dir_step(p: DirProgress, ev: DirEvent) -> DirProgress {
    if p.state != DirState::Active {
        p
    } else {
        match ev {
            DirEvent::Data(n) => DirProgress {
                bytes: if p.bytes + n <= u64::MAX {
                    (p.bytes + n) as u64
                } else {
                    u64::MAX
                },
                state: DirState::Active,
            },
            DirEvent::SourceClosed => DirProgress { bytes: p.bytes, state: DirState::SawEof },
            DirEvent::IoFailed => DirProgress { bytes: p.bytes, state: DirState::Failed },
        }
    }
}

/// A direction has ended, by end-of-stream or failure.
pub open spec fn dir_done(p: DirProgress) -> bool {
    p.state != DirState::Active
}

/// A fresh direction: nothing moved, still active.
pub fn dir_start() -> (r: DirProgress)
    ensures
        r.bytes == 0,
        r.state == DirState::Active,
{
    DirProgress { bytes: 0, state: DirState::Active }
}

/// Accounts `n` more relayed bytes in an active direction.
pub fn dir_on_data(p: &mut DirProgress, n: u64)
    requires
        old(p).state == DirState::Active,
        old(p).bytes + n <= u64::MAX,
    ensures
        *final(p) == spec_dir_step(*old(p), DirEvent::Data(n)),
        final(p).bytes == old(p).bytes + n,
        final(p).state == DirState::Active,
{
    p.bytes = p.bytes + n;
}

/// Records that the direction's source reached end-of-stream. The byte
/// count is untouched.
pub fn dir_on_eof(p: &mut DirProgress)
    requires
        old(p).state == DirState::Active,
    ensures
        *final(p) == spec_dir_step(*old(p), DirEvent::SourceClosed),
        final(p).bytes == old(p).bytes,
        final(p).state == DirState::SawEof,
{
    p.state = DirState::SawEof;
}

/// Records an I/O failure in the direction. The bytes already moved
/// stay accounted.
pub fn dir_on_error(p: &mut DirProgress)
    requires
        old(p).state == DirState::Active,
    ensures
        *final(p) == spec_dir_step(*old(p), DirEvent::IoFailed),
        final(p).bytes == old(p).bytes,
        final(p).state == DirState::Failed,
{
    p.state = DirState::Failed;
}

pub fn dir_is_done(p: &DirProgress) -> (r: bool)
    ensures
        r == dir_done(*p),
{
    match p.state {
        DirState::Active => false,
        _ => true,
    }
}

/// The two directions of one relayed connection.
#[derive(Clone, Copy, Debug, PartialEq, Eq, Structural)]
pub struct RelayState {
    pub a_to_b: DirProgress,
    pub b_to_a: DirProgress,
}

/// An event, tagged with the direction it belongs to.
#[derive(Clone, Copy, Debug, PartialEq, Eq, Structural)]
pub enum RelayEvent {
    AToB(DirEvent),
    BToA(DirEvent),
}

/// A relay event advances exactly the direction it belongs to.
pub open spec fn spec_relay_step(st: RelayState, ev: RelayEvent) -> RelayState {
    match ev {
        RelayEvent::AToB(d) => RelayState {
            a_to_b: spec_dir_step(st.a_to_b, d),
            b_to_a: st.b_to_a,
        },
        RelayEvent::BToA(d) => RelayState {
            a_to_b: st.a_to_b,
            b_to_a: spec_dir_step(st.b_to_a, d),
        },
    }
}

/// Both directions have ended; only now may the streams be shut down.
pub open spec fn relay_finished(st: RelayState) -> bool {
    dir_done(st.a_to_b) && dir_done(st.b_to_a)
}

/// A fresh relay: both directions active, nothing moved.
pub fn relay_start() -> (r: RelayState)
    ensures
        r.a_to_b.bytes == 0 && r.a_to_b.state == DirState::Active,
        r.b_to_a.bytes == 0 && r.b_to_a.state == DirState::Active,
{
    RelayState { a_to_b: dir_start(), b_to_a: dir_start() }
}

/// Feeds one event to the relay. The untouched direction is returned
/// exactly as it was — ending one direction cannot end the other — and
/// the result says whether both directions have now ended, which is the
/// one moment the caller may shut both streams down.
pub fn relay_step(st: &mut RelayState, ev: RelayEvent) -> (shutdown: bool)
    requires
        ev matches RelayEvent::AToB(d) ==> old(st).a_to_b.state == DirState::Active && (
        d matches DirEvent::Data(n) ==> old(st).a_to_b.bytes + n <= u64::MAX),
        ev matches RelayEvent::BToA(d) ==> old(st).b_to_a.state == DirState::Active && (
        d matches DirEvent::Data(n) ==> old(st).b_to_a.bytes + n <= u64::MAX),
    ensures
        *final(st) == spec_relay_step(*old(st), ev),
        ev matches RelayEvent::AToB(_) ==> final(st).b_to_a == old(st).b_to_a,
        ev matches RelayEvent::BToA(_) ==> final(st).a_to_b == old(st).a_to_b,
        shutdown == relay_finished(*final(st)),
{
    match ev {
        RelayEvent::AToB(d) => {
            match d {
                DirEvent::Data(n) => dir_on_data(&mut st.a_to_b, n),
                DirEvent::SourceClosed => dir_on_eof(&mut st.a_to_b),
                DirEvent::IoFailed => dir_on_error(&mut st.a_to_b),
            }
        },
        RelayEvent::BToA(d) => {
            match d {
                DirEvent::Data(n) => dir_on_data(&mut st.b_to_a, n),
                DirEvent::SourceClosed => dir_on_eof(&mut st.b_to_a),
                DirEvent::IoFailed => dir_on_error(&mut st.b_to_a),
            }
        },
    }
    let a_done = dir_is_done(&st.a_to_b);
    let b_done = dir_is_done(&st.b_to_a);
    a_done && b_done
}

/// The accounting a finished relay reports: the exact byte counts of
/// the two directions, and whether either of them failed. An error does
/// not discard the count already transferred.
#[derive(Clone, Copy, Debug, PartialEq, Eq, Structural)]
pub struct RelayOutcome {
    pub bytes_a_to_b: u64,
    pub bytes_b_to_a: u64,
    pub io_error: bool,
}

pub fn relay_outcome(st: &RelayState) -> (r: RelayOutcome)
    requires
        relay_finished(*st),
    ensures
        r.bytes_a_to_b == st.a_to_b.bytes,
        r.bytes_b_to_a == st.b_to_a.bytes,
        r.io_error == (st.a_to_b.state == DirState::Failed || st.b_to_a.state
            == DirState::Failed),
{
    let a_failed = match st.a_to_b.state {
        DirState::Failed => true,
        _ => false,
    };
    let b_failed = match st.b_to_a.state {
        DirState::Failed => true,
        _ => false,
    };
    RelayOutcome {
        bytes_a_to_b: st.a_to_b.bytes,
        bytes_b_to_a: st.b_to_a.bytes,
        io_error: a_failed || b_failed,
    }
}

// ---------------------------------------------------------------------
// Laws of a whole relay run.
// ---------------------------------------------------------------------

/// A direction folded over a sequence of events.
pub open spec fn run_dir(p: DirProgress, evs: Seq<DirEvent>) -> DirProgress
    decreases evs.len(),
{
    if evs.len() == 0 {
        p
    } else {
        run_dir(spec_dir_step(p, evs[0]), evs.drop_first())
    }
}

/// A relay folded over a sequence of tagged events.
pub open spec fn run_relay(st: RelayState, evs: Seq<RelayEvent>) -> RelayState
    decreases evs.len(),
{
    if evs.len() == 0 {
        st
    } else {
        run_relay(spec_relay_step(st, evs[0]), evs.drop_first())
    }
}

/// The events of the A-to-B direction, in order.
pub open spec fn proj_a(evs: Seq<RelayEvent>) -> Seq<DirEvent>
    decreases evs.len(),
{
    if evs.len() == 0 {
        Seq::empty()
    } else {
        match evs[0] {
            RelayEvent::AToB(d) => seq![d] + proj_a(evs.drop_first()),
            RelayEvent::BToA(_) => proj_a(evs.drop_first()),
        }
    }
}

/// The events of the B-to-A direction, in order.
pub open spec fn proj_b(evs: Seq<RelayEvent>) -> Seq<DirEvent>
    decreases evs.len(),
{
    if evs.len() == 0 {
        Seq::empty()
    } else {
        match evs[0] {
            RelayEvent::AToB(_) => proj_b(evs.drop_first()),
            RelayEvent::BToA(d) => seq![d] + proj_b(evs.drop_first()),
        }
    }
}

/// Law: however the two directions' events interleave, each direction
/// of the relay ends exactly as it would have ended fed its own events
/// alone — the directions are independent.
pub proof fn lemma_relay_projects(st: RelayState, evs: Seq<RelayEvent>)
    ensures
        run_relay(st, evs).a_to_b == run_dir(st.a_to_b, proj_a(evs)),
        run_relay(st, evs).b_to_a == run_dir(st.b_to_a, proj_b(evs)),
    decreases evs.len(),
{
    if evs.len() > 0 {
        let st1 = spec_relay_step(st, evs[0]);
        lemma_relay_projects(st1, evs.drop_first());
        match evs[0] {
            RelayEvent::AToB(d) => {
                let rest = proj_a(evs.drop_first());
                assert((seq![d] + rest).drop_first() =~= rest);
                assert(proj_b(evs) == proj_b(evs.drop_first()));
            },
            RelayEvent::BToA(d) => {
                let rest = proj_b(evs.drop_first());
                assert((seq![d] + rest).drop_first() =~= rest);
                assert(proj_a(evs) == proj_a(evs.drop_first()));
            },
        }
    }
}

/// Every event is a data chunk.
pub open spec fn all_data(evs: Seq<DirEvent>) -> bool {
    forall|i: int| 0 <= i < evs.len() ==> #[trigger] evs[i] matches DirEvent::Data(_)
}

/// Total size of the data chunks in a direction's events.
pub open spec fn data_sum(evs: Seq<DirEvent>) -> int
    decreases evs.len(),
{
    if evs.len() == 0 {
        0
    } else {
        (match evs[0] {
            DirEvent::Data(n) => n as int,
            _ => 0,
        }) + data_sum(evs.drop_first())
    }
}

/// Law: an active direction fed data chunks stays active and accounts
/// exactly their total size.
pub proof fn lemma_dir_data_sum(p: DirProgress, evs: Seq<DirEvent>)
    requires
        p.state == DirState::Active,
        all_data(evs),
        p.bytes + data_sum(evs) <= u64::MAX,
    ensures
        run_dir(p, evs).state == DirState::Active,
        run_dir(p, evs).bytes == p.bytes + data_sum(evs),
    decreases evs.len(),
{
    if evs.len() > 0 {
        let p1 = spec_dir_step(p, evs[0]);
        assert(data_sum(evs.drop_first()) >= 0) by {
            lemma_data_sum_nonneg(evs.drop_first());
        }
        lemma_dir_data_sum(p1, evs.drop_first());
    }
}

proof fn lemma_data_sum_nonneg(evs: Seq<DirEvent>)
    ensures
        data_sum(evs) >= 0,
    decreases evs.len(),
{
    if evs.len() > 0 {
        lemma_data_sum_nonneg(evs.drop_first());
    }
}

/// Law: a direction that delivers data chunks and then sees its source
/// close reports exactly the chunks' total size, ended by end-of-stream
/// — closing one's write half loses nothing that was already read.
pub proof fn lemma_dir_closed_count(chunks: Seq<DirEvent>)
    requires
        all_data(chunks),
        data_sum(chunks) <= u64::MAX,
    ensures
        run_dir(
            DirProgress { bytes: 0, state: DirState::Active },
            chunks.push(DirEvent::SourceClosed),
        ).bytes == data_sum(chunks),
        run_dir(
            DirProgress { bytes: 0, state: DirState::Active },
            chunks.push(DirEvent::SourceClosed),
        ).state == DirState::SawEof,
{
    let p0 = DirProgress { bytes: 0, state: DirState::Active };
    lemma_dir_data_sum(p0, chunks);
    lemma_run_dir_snoc(p0, chunks, DirEvent::SourceClosed);
}

proof fn lemma_run_dir_snoc(p: DirProgress, evs: Seq<DirEvent>, last: DirEvent)
    ensures
        run_dir(p, evs.push(last)) == spec_dir_step(run_dir(p, evs), last),
    decreases evs.len(),
{
    if evs.len() == 0 {
        assert(evs.push(last)[0] == last);
        assert(evs.push(last).drop_first() =~= Seq::<DirEvent>::empty());
        assert(run_dir(spec_dir_step(p, last), Seq::<DirEvent>::empty()) == spec_dir_step(
            p,
            last,
        ));
    } else {
        assert(evs.push(last)[0] == evs[0]);
        assert(evs.push(last).drop_first() =~= evs.drop_first().push(last));
        lemma_run_dir_snoc(spec_dir_step(p, evs[0]), evs.drop_first(), last);
        assert(run_dir(p, evs.push(last)) == run_dir(
            spec_dir_step(p, evs[0]),
            evs.drop_first().push(last),
        ));
        assert(run_dir(p, evs) == run_dir(spec_dir_step(p, evs[0]), evs.drop_first()));
    }
}

/// Law: in any interleaving where side A delivers its chunks and then
/// closes its write half, and side B delivers its own chunks and then
/// closes, the relay finishes and reports exactly the two totals; in
/// particular the A-to-B direction's end never cut the B-to-A count
/// short.
pub proof fn lemma_relay_exact_counts(
    evs: Seq<RelayEvent>,
    ca: Seq<DirEvent>,
    cb: Seq<DirEvent>,
)
    requires
        proj_a(evs) == ca.push(DirEvent::SourceClosed),
        proj_b(evs) == cb.push(DirEvent::SourceClosed),
        all_data(ca),
        all_data(cb),
        data_sum(ca) <= u64::MAX,
        data_sum(cb) <= u64::MAX,
    ensures
        ({
            let st0 = RelayState {
                a_to_b: DirProgress { bytes: 0, state: DirState::Active },
                b_to_a: DirProgress { bytes: 0, state: DirState::Active },
            };
            &&& relay_finished(run_relay(st0, evs))
            &&& run_relay(st0, evs).a_to_b.bytes == data_sum(ca)
            &&& run_relay(st0, evs).b_to_a.bytes == data_sum(cb)
        }),
{
    let st0 = RelayState {
        a_to_b: DirProgress { bytes: 0, state: DirState::Active },
        b_to_a: DirProgress { bytes: 0, state: DirState::Active },
    };
    lemma_relay_projects(st0, evs);
    lemma_dir_closed_count(ca);
    lemma_dir_closed_count(cb);
}

} // verus!
