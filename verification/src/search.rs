//! The course of one streaming search: local hits first, then the network, then
//! the end of the stream.

use vstd::prelude::*;

use crate::discovery;
use crate::discovery::is_discovery_query;
use crate::item;
use crate::record;
use crate::record::{DiscoveryRecord, GatewayQuery, RecordView};
use crate::stream;
use crate::stream::{local_window, rank_by_seeders, HitStream, StreamView, Verdict};

verus! {

/// How a query is answered.
#[derive(Clone, Copy, Debug, PartialEq, Eq, Structural)]
pub enum Route {
    /// From the catalog.
    Catalog,
    /// With an empty stream.
    Nothing,
    /// By a search.
    Search,
}

/// Decides how a query is answered. `has_catalog` tells whether there is a
/// catalog to ask, `accepted` whether the filters of the query leave anything
/// that this source could serve.
pub fn route(query: &GatewayQuery, has_catalog: bool, accepted: bool) -> (r: Route)
    ensures
        r == (if discovery::asks_for_list(*query) {
            if has_catalog {
                Route::Catalog
            } else {
                Route::Nothing
            }
        } else if accepted {
            Route::Search
        } else {
            Route::Nothing
        }),
{
    if is_discovery_query(query) {
        if has_catalog {
            Route::Catalog
        } else {
            Route::Nothing
        }
    } else if accepted {
        Route::Search
    } else {
        Route::Nothing
    }
}

/// How far a search has come.
#[derive(Clone, Copy, Debug, PartialEq, Eq, Structural)]
pub enum Phase {
    /// Nothing was asked yet.
    Begun,
    /// The local hits are known.
    Local,
    /// The network was asked.
    Asked,
    /// The search over the network has begun.
    Found,
    /// Nothing more will come.
    Ending,
    /// The stream is over.
    Over,
}

/// What is to be done next.
#[derive(Debug)]
pub enum Step {
    /// Ask the local database for this many candidates.
    SearchLocal(usize),
    /// Unpack this hit and offer its records.
    Emit(DiscoveryRecord),
    /// Start a search over the network.
    SearchRemote,
    /// Listen for the results of the search with this id.
    Listen(String),
    /// Tell the consumer that this is the end.
    SendDone,
    /// Stop.
    Stop,
}

/// What a [`Step`] holds.
#[verifier::ext_equal]
pub enum StepView {
    SearchLocal(int),
    Emit(RecordView),
    SearchRemote,
    Listen(Seq<char>),
    SendDone,
    Stop,
}

impl View for Step {
    type V = StepView;

    open spec fn view(&self) -> StepView {
        match self {
            Step::SearchLocal(n) => StepView::SearchLocal(*n as int),
            Step::Emit(r) => StepView::Emit(r@),
            Step::SearchRemote => StepView::SearchRemote,
            Step::Listen(id) => StepView::Listen(id@),
            Step::SendDone => StepView::SendDone,
            Step::Stop => StepView::Stop,
        }
    }
}

/// One streaming search.
#[derive(Debug)]
pub struct SearchRun {
    stream: HitStream,
    queue: Vec<DiscoveryRecord>,
    uuid: String,
    phase: Phase,
}

/// What a [`SearchRun`] holds: what was sent, the local hits that are left, the
/// id of the search over the network, and how far the search has come.
#[verifier::ext_equal]
pub struct RunView {
    pub stream: StreamView,
    pub queue: Seq<RecordView>,
    pub uuid: Seq<char>,
    pub phase: Phase,
}

impl View for SearchRun {
    type V = RunView;

    closed spec fn view(&self) -> RunView {
        RunView {
            stream: self.stream@,
            queue: record::record_views(self.queue@),
            uuid: self.uuid@,
            phase: self.phase,
        }
    }
}

/// The stream has all its results.
pub open spec fn is_full(s: StreamView) -> bool {
    s.sent.len() >= s.max_results
}

/// What is to be done next: the best local hit that is left, while results are
/// missing; then, while results are still missing, the network.
pub open spec fn next_step(v: RunView) -> StepView {
    match v.phase {
        Phase::Begun => StepView::SearchLocal(stream::window(v.stream.max_results)),
        Phase::Local => if is_full(v.stream) {
            StepView::SendDone
        } else if v.queue.len() > 0 {
            StepView::Emit(v.queue[0])
        } else {
            StepView::SearchRemote
        },
        Phase::Asked => StepView::SearchRemote,
        Phase::Found => StepView::Listen(v.uuid),
        Phase::Ending => StepView::SendDone,
        Phase::Over => StepView::Stop,
    }
}

/// The search after that step was given out.
pub open spec fn after_next(v: RunView) -> RunView {
    match v.phase {
        Phase::Begun => v,
        Phase::Local => if is_full(v.stream) {
            RunView { phase: Phase::Over, ..v }
        } else if v.queue.len() > 0 {
            RunView { queue: v.queue.skip(1), ..v }
        } else {
            RunView { phase: Phase::Asked, ..v }
        },
        Phase::Asked => v,
        Phase::Found => RunView { phase: Phase::Ending, ..v },
        Phase::Ending => RunView { phase: Phase::Over, ..v },
        Phase::Over => v,
    }
}

/// The search after a hit was emitted. A consumer that hung up ends it.
pub open spec fn after_emit(v: RunView, alive: bool) -> RunView {
    if v.phase == Phase::Local && !alive {
        RunView { phase: Phase::Over, ..v }
    } else {
        v
    }
}

/// The search after the network was asked: `reply` holds the id of the search,
/// where it has one, or is absent where no search could be started.
pub open spec fn after_ask(v: RunView, reply: Option<Option<Seq<char>>>) -> RunView {
    if v.phase != Phase::Asked {
        v
    } else {
        match reply {
            Some(id) => RunView { phase: Phase::Found, uuid: item::text_or_empty(id), ..v },
            None => RunView { phase: Phase::Ending, ..v },
        }
    }
}

/// The search ids in an optional reply.
pub open spec fn reply_view(reply: Option<Option<String>>) -> Option<Option<Seq<char>>> {
    match reply {
        Some(id) => Some(item::text_of(id)),
        None => None,
    }
}

impl SearchRun {
    /// A search for `max_results` results.
    pub fn new(max_results: usize) -> (r: Self)
        ensures
            r@ == (RunView {
                stream: StreamView { sent: Seq::empty(), max_results: max_results as nat },
                queue: Seq::empty(),
                uuid: Seq::empty(),
                phase: Phase::Begun,
            }),
    {
        let queue: Vec<DiscoveryRecord> = Vec::new();
        assert(record::record_views(queue@) == Seq::<RecordView>::empty());
        SearchRun {
            stream: HitStream::new(max_results),
            queue,
            uuid: String::new(),
            phase: Phase::Begun,
        }
    }

    /// Gives out the next step.
    pub fn next(&mut self) -> (r: Step)
        ensures
            r@ == next_step(old(self)@),
            final(self)@ == after_next(old(self)@),
    {
        match self.phase {
            Phase::Begun => Step::SearchLocal(local_window(self.stream.limit())),
            Phase::Local => {
                if self.stream.is_full() {
                    self.phase = Phase::Over;
                    Step::SendDone
                } else if self.queue.len() > 0 {
                    let ghost before = record::record_views(self.queue@);
                    let mut queue: Vec<DiscoveryRecord> = Vec::new();
                    std::mem::swap(&mut queue, &mut self.queue);
                    let first = queue.remove(0);
                    assert(record::record_views(queue@) == before.skip(1));
                    self.queue = queue;
                    Step::Emit(first)
                } else {
                    self.phase = Phase::Asked;
                    Step::SearchRemote
                }
            },
            Phase::Asked => Step::SearchRemote,
            Phase::Found => {
                self.phase = Phase::Ending;
                Step::Listen(crate::text::owned(self.uuid.as_str()))
            },
            Phase::Ending => {
                self.phase = Phase::Over;
                Step::SendDone
            },
            Phase::Over => Step::Stop,
        }
    }

    /// Takes in the local candidates, absent where they could not be had. They
    /// are emitted best-seeded first.
    pub fn tell_local(&mut self, records: &Option<Vec<DiscoveryRecord>>)
        ensures
            old(self)@.phase != Phase::Begun ==> final(self)@ == old(self)@,
            old(self)@.phase == Phase::Begun ==> {
                &&& final(self)@ == (RunView {
                    phase: Phase::Local,
                    queue: final(self)@.queue,
                    ..old(self)@
                })
                &&& match records {
                    Some(v) => stream::is_ranked(record::record_views(v@), final(self)@.queue),
                    None => final(self)@.queue == Seq::<RecordView>::empty(),
                }
            },
    {
        if self.phase == Phase::Begun {
            let queue = match records {
                Some(v) => rank_by_seeders(v),
                None => {
                    let none: Vec<DiscoveryRecord> = Vec::new();
                    assert(record::record_views(none@) == Seq::<RecordView>::empty());
                    none
                },
            };
            self.queue = queue;
            self.phase = Phase::Local;
        }
    }

    /// Notes that a hit was emitted; `alive` tells whether the consumer is still
    /// there.
    pub fn tell_emitted(&mut self, alive: bool)
        ensures
            final(self)@ == after_emit(old(self)@, alive),
    {
        if self.phase == Phase::Local && !alive {
            self.phase = Phase::Over;
        }
    }

    /// Takes in the reply of the network.
    pub fn tell_remote(&mut self, reply: Option<Option<String>>)
        ensures
            final(self)@ == after_ask(old(self)@, reply_view(reply)),
    {
        if self.phase == Phase::Asked {
            match reply {
                Some(id) => {
                    self.uuid = match id {
                        Some(s) => s,
                        None => String::new(),
                    };
                    self.phase = Phase::Found;
                },
                None => {
                    self.phase = Phase::Ending;
                },
            }
        }
    }

    /// Tests whether the stream has all its results.
    pub fn is_full(&self) -> (r: bool)
        ensures
            r == is_full(self@.stream),
    {
        self.stream.is_full()
    }

    /// Offers a record to the stream.
    pub fn offer(&mut self, rec: &DiscoveryRecord, matches_query: bool) -> (r: Verdict)
        ensures
            r == stream::verdict(old(self)@.stream, item::dedup_key(rec@), matches_query),
            final(self)@ == (RunView {
                stream: stream::offered(
                    old(self)@.stream,
                    item::dedup_key(rec@),
                    matches_query,
                ),
                ..old(self)@
            }),
            stream::is_sound(final(self)@.stream),
    {
        self.stream.offer(rec, matches_query)
    }
}

/// Something that happens in the course of a search.
pub enum Move {
    /// The next step is given out.
    Next,
    /// The local candidates come in, in the order in which they are emitted.
    Local { queue: Seq<RecordView> },
    /// A hit was emitted.
    Emitted { alive: bool },
    /// The network replies.
    Remote { reply: Option<Option<Seq<char>>> },
    /// A record is offered.
    Offered { key: Seq<char>, matches_query: bool },
}

/// The search after a move.
pub open spec fn moved(v: RunView, m: Move) -> RunView {
    match m {
        Move::Next => after_next(v),
        Move::Local { queue } => if v.phase == Phase::Begun {
            RunView { phase: Phase::Local, queue, ..v }
        } else {
            v
        },
        Move::Emitted { alive } => after_emit(v, alive),
        Move::Remote { reply } => after_ask(v, reply),
        Move::Offered { key, matches_query } => RunView {
            stream: stream::offered(v.stream, key, matches_query),
            ..v
        },
    }
}

/// The search after a list of moves.
pub open spec fn moved_all(v: RunView, moves: Seq<Move>) -> RunView
    decreases moves.len(),
{
    if moves.len() == 0 {
        v
    } else {
        moved(moved_all(v, moves.drop_last()), moves.last())
    }
}

/// How often a list of moves gives out the end of the stream.
pub open spec fn ends(v: RunView, moves: Seq<Move>) -> nat
    decreases moves.len(),
{
    if moves.len() == 0 {
        0
    } else {
        let before = moved_all(v, moves.drop_last());
        ends(v, moves.drop_last()) + (if moves.last() is Next && next_step(before) is SendDone {
            1nat
        } else {
            0nat
        })
    }
}

/// Whatever happens, the consumer is told at most once that the stream is over,
/// and from then on nothing more is to be done. A search that is over stays so.
pub proof fn end_is_told_once(v: RunView, moves: Seq<Move>)
    ensures
        ends(v, moves) <= 1,
        ends(v, moves) == 1 ==> moved_all(v, moves).phase == Phase::Over,
        v.phase == Phase::Over ==> ends(v, moves) == 0 && moved_all(v, moves).phase == Phase::Over,
        moved_all(v, moves).phase == Phase::Over ==> next_step(moved_all(v, moves)) is Stop,
    decreases moves.len(),
{
    if moves.len() > 0 {
        end_is_told_once(v, moves.drop_last());
    }
}

/// A consumer that hung up while local hits were emitted is told nothing more,
/// not even that the stream is over.
pub proof fn hanging_up_ends_the_search(v: RunView, moves: Seq<Move>)
    requires
        v.phase == Phase::Local,
    ensures
        ends(moved(v, Move::Emitted { alive: false }), moves) == 0,
        next_step(moved_all(moved(v, Move::Emitted { alive: false }), moves)) is Stop,
{
    end_is_told_once(moved(v, Move::Emitted { alive: false }), moves);
}

/// The network is asked only where the local hits were all emitted and results
/// are missing; a local hit is emitted only where results are missing.
pub proof fn full_stream_asks_for_nothing(v: RunView)
    requires
        v.phase == Phase::Local,
    ensures
        is_full(v.stream) ==> next_step(v) is SendDone,
        next_step(v) is SearchRemote ==> v.queue.len() == 0 && !is_full(v.stream),
        next_step(v) is Emit ==> !is_full(v.stream) && after_next(v).queue == v.queue.skip(1),
{
}

/// A search takes its course. It asks for local candidates until they are told,
/// then gives them out one by one, in their order, while results are missing. Once
/// none is left it asks the network, until that is told, and listens to the search
/// that was started there, if any. Then it tells the end, and stops.
pub proof fn search_takes_its_course(
    start: RunView,
    queue: Seq<RecordView>,
    id: Option<Seq<char>>,
)
    requires
        start.phase == Phase::Begun,
        start.stream.sent.len() < start.stream.max_results,
    ensures
        ({
            let local = moved(start, Move::Local { queue });
            let first = moved(local, Move::Next);
            &&& next_step(start) == StepView::SearchLocal(stream::window(start.stream.max_results))
            &&& moved(start, Move::Next) == start
            &&& local.stream == start.stream && local.queue == queue
            &&& queue.len() > 0 ==> {
                &&& next_step(local) == StepView::Emit(queue[0])
                &&& moved(first, Move::Emitted { alive: true }) == moved(
                    start,
                    Move::Local { queue: queue.skip(1) },
                )
                &&& moved(first, Move::Emitted { alive: false }).phase == Phase::Over
            }
            &&& queue.len() == 0 ==> {
                let started = moved(first, Move::Remote { reply: Some(id) });
                let refused = moved(first, Move::Remote { reply: None });
                let heard = moved(started, Move::Next);
                &&& next_step(local) == StepView::SearchRemote
                &&& next_step(first) == StepView::SearchRemote
                &&& moved(first, Move::Next) == first
                &&& next_step(started) == StepView::Listen(
                    if id is Some {
                        id->0
                    } else {
                        Seq::empty()
                    },
                )
                &&& next_step(heard) == StepView::SendDone
                &&& next_step(moved(heard, Move::Next)) == StepView::Stop
                &&& next_step(refused) == StepView::SendDone
                &&& next_step(moved(refused, Move::Next)) == StepView::Stop
                &&& started.stream == start.stream && heard.stream == start.stream
                    && refused.stream == start.stream
            }
        }),
{
}

/// A search that has all its results tells the end at its next step and stops.
pub proof fn full_search_ends(v: RunView)
    requires
        v.phase == Phase::Local,
        v.stream.sent.len() >= v.stream.max_results,
    ensures
        next_step(v) == StepView::SendDone,
        next_step(moved(v, Move::Next)) == StepView::Stop,
{
}

/// Only offering a record changes what was sent; what was sent stays sent.
pub proof fn only_offers_send(v: RunView, m: Move)
    ensures
        !(m is Offered) ==> moved(v, m).stream == v.stream,
        v.stream.sent.is_prefix_of(moved(v, m).stream.sent),
        m matches Move::Offered { key, matches_query } ==> {
            &&& moved(v, m).phase == v.phase && moved(v, m).queue == v.queue
            &&& moved(v, m).uuid == v.uuid
            &&& moved(v, m).stream == stream::offered(v.stream, key, matches_query)
        },
{
}

/// A query for a list is answered from the catalog, or not at all without one; any
/// other query is searched for, unless its filters leave nothing.
pub proof fn queries_are_routed(query: GatewayQuery, has_catalog: bool, accepted: bool, r: Route)
    requires
        call_ensures(route, (&query, has_catalog, accepted), r),
    ensures
        r == Route::Catalog <==> discovery::asks_for_list(query) && has_catalog,
        r == Route::Search <==> !discovery::asks_for_list(query) && accepted,
        r == Route::Nothing <==> (discovery::asks_for_list(query) && !has_catalog) || (
        !discovery::asks_for_list(query) && !accepted),
{
}

/// A search starts with nothing sent, nothing queued and nothing asked.
pub proof fn search_starts_fresh(max_results: usize, r: SearchRun)
    requires
        call_ensures(SearchRun::new, (max_results,), r),
    ensures
        r@.phase == Phase::Begun,
        r@.stream.sent.len() == 0,
        r@.stream.max_results == max_results,
        r@.queue.len() == 0,
        r@.uuid.len() == 0,
{
}

/// What is done to a search is the course of its moves: the next step, the local
/// hits by seeders, a hit that was emitted, the reply of the network, and a record
/// that is offered.
pub proof fn searches_move_as_told(
    a: &mut SearchRun,
    step: Step,
    b: &mut SearchRun,
    records: Vec<DiscoveryRecord>,
    c: &mut SearchRun,
    alive: bool,
    d: &mut SearchRun,
    id: String,
    e: &mut SearchRun,
    rec: DiscoveryRecord,
    matches_query: bool,
    verdict: Verdict,
)
    requires
        call_ensures(SearchRun::next, (a,), step),
        call_ensures(SearchRun::tell_local, (b, &Some(records)), ()),
        call_ensures(SearchRun::tell_emitted, (c, alive), ()),
        call_ensures(SearchRun::tell_remote, (d, Some(Some(id))), ()),
        call_ensures(SearchRun::offer, (e, &rec, matches_query), verdict),
    ensures
        step@ == next_step(old(a)@),
        final(a)@ == moved(old(a)@, Move::Next),
        old(b)@.phase == Phase::Begun ==> stream::is_ranked(
            record::record_views(records@),
            final(b)@.queue,
        ) && final(b)@ == moved(old(b)@, Move::Local { queue: final(b)@.queue }),
        old(b)@.phase != Phase::Begun ==> final(b)@ == old(b)@,
        final(c)@ == moved(old(c)@, Move::Emitted { alive }),
        final(d)@ == moved(old(d)@, Move::Remote { reply: Some(Some(id@)) }),
        final(e)@ == moved(old(e)@, Move::Offered { key: item::dedup_key(rec@), matches_query }),
        verdict == stream::verdict(old(e)@.stream, item::dedup_key(rec@), matches_query),
{
}

} // verus!
