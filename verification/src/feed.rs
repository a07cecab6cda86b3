//! Listening to the event feed for the results of one search, until it has been
//! quiet for too long.
//!
//! Times are nanoseconds of a clock that does not go back.

use vstd::prelude::*;

use crate::events;
use crate::events::{into_records, parse_remote_results, FrameBuffer};
use crate::record;
use crate::record::{DiscoveryRecord, RecordView};
use crate::stream::{idle_left, SSE_IDLE_EXHAUST_NANOS};
use crate::text;
use crate::text::owned;

verus! {

/// A search whose results come in over the event feed.
#[derive(Debug)]
pub struct RemoteFeed {
    want_uuid: String,
    buffer: FrameBuffer,
    quiet_since: u64,
}

/// What a [`RemoteFeed`] holds: the id of the search, what was received of a
/// frame that is not complete yet, and since when nothing was found.
#[verifier::ext_equal]
pub struct FeedView {
    pub want_uuid: Seq<char>,
    pub pending: Seq<char>,
    pub quiet_since: nat,
}

impl View for RemoteFeed {
    type V = FeedView;

    closed spec fn view(&self) -> FeedView {
        FeedView {
            want_uuid: self.want_uuid@,
            pending: self.buffer@,
            quiet_since: self.quiet_since as nat,
        }
    }
}

/// The records that a list of frames carries for the wanted search, in order.
pub open spec fn frame_records(frames: Seq<Seq<char>>, want_uuid: Seq<char>) -> Seq<RecordView>
    decreases frames.len(),
{
    if frames.len() == 0 {
        Seq::empty()
    } else {
        frame_records(frames.drop_last(), want_uuid) + events::records_of(
            events::frame_items(frames.last(), want_uuid),
        )
    }
}

/// How long the feed has been quiet at `now`.
pub open spec fn quiet_time(f: FeedView, now: nat) -> nat {
    if now > f.quiet_since {
        (now - f.quiet_since) as nat
    } else {
        0
    }
}

impl RemoteFeed {
    /// Begins to listen at `now` for the results of the search `want_uuid`; an
    /// empty id takes those of any search.
    pub fn new(want_uuid: &str, now: u64) -> (r: Self)
        ensures
            r@ == (FeedView {
                want_uuid: want_uuid@,
                pending: Seq::empty(),
                quiet_since: now as nat,
            }),
    {
        RemoteFeed { want_uuid: owned(want_uuid), buffer: FrameBuffer::new(), quiet_since: now }
    }

    /// How long to wait for the next chunk; the feed is exhausted where there is
    /// no time left.
    pub fn time_left(&self, now: u64) -> (r: Option<u64>)
        ensures
            r is Some <==> quiet_time(self@, now as nat) < SSE_IDLE_EXHAUST_NANOS,
            r matches Some(left) ==> left + quiet_time(self@, now as nat)
                == SSE_IDLE_EXHAUST_NANOS,
    {
        let idle: u64 = if now > self.quiet_since {
            now - self.quiet_since
        } else {
            0
        };
        idle_left(idle as u128)
    }

    /// Takes in a chunk of the feed and gives the records that it completes.
    pub fn receive(&mut self, chunk: &[u8]) -> (r: Vec<DiscoveryRecord>)
        ensures
            ({
                let all = old(self)@.pending + events::lossy_text(chunk@);
                &&& record::record_views(r@) == frame_records(
                    events::complete_frames(all),
                    old(self)@.want_uuid,
                )
                &&& final(self)@ == (FeedView {
                    pending: events::incomplete_rest(all),
                    ..old(self)@
                })
            }),
    {
        let ghost want = self@.want_uuid;
        self.buffer.receive(chunk);
        let frames = self.buffer.take_frames();
        let ghost views = text::string_views(frames@);
        let n: usize = frames.len();
        let mut out: Vec<DiscoveryRecord> = Vec::new();
        let mut i: usize = 0;
        assert(record::record_views(out@) == frame_records(views.take(0), want));
        while i < n
            invariant
                n == frames@.len(),
                views == text::string_views(frames@),
                want == self.want_uuid@,
                i <= n,
                record::record_views(out@) == frame_records(views.take(i as int), want),
            decreases n - i,
        {
            let items = parse_remote_results(frames[i].as_str(), self.want_uuid.as_str());
            let mut records = into_records(items);
            proof {
                assert(views.take(i + 1).drop_last() == views.take(i as int));
                assert(views.take(i + 1).last() == frames@[i as int]@);
            }
            let ghost before = record::record_views(out@);
            let ghost added = record::record_views(records@);
            out.append(&mut records);
            assert(record::record_views(out@) == before + added);
            i += 1;
        }
        assert(views.take(n as int) == views);
        out
    }

    /// Notes at `now` that the records of a chunk were handled. A chunk with
    /// records keeps the feed alive, whether or not they were of use.
    pub fn handled(&mut self, found: bool, now: u64)
        ensures
            final(self)@ == (if found {
                FeedView { quiet_since: now as nat, ..old(self)@ }
            } else {
                old(self)@
            }),
    {
        if found {
            self.quiet_since = now;
        }
    }
}

proof fn lemma_frame_records_split(a: Seq<Seq<char>>, b: Seq<Seq<char>>, want_uuid: Seq<char>)
    ensures
        frame_records(a + b, want_uuid) == frame_records(a, want_uuid) + frame_records(
            b,
            want_uuid,
        ),
    decreases b.len(),
{
    if b.len() == 0 {
        assert(a + b == a);
        assert(frame_records(a, want_uuid) + Seq::<RecordView>::empty() == frame_records(
            a,
            want_uuid,
        ));
    } else {
        lemma_frame_records_split(a, b.drop_last(), want_uuid);
        assert((a + b).drop_last() == a + b.drop_last());
        let last = events::records_of(events::frame_items(b.last(), want_uuid));
        assert(frame_records(a, want_uuid) + (frame_records(b.drop_last(), want_uuid) + last) == (
        frame_records(a, want_uuid) + frame_records(b.drop_last(), want_uuid)) + last);
    }
}

/// However the text of a feed is cut into chunks, the same records come out:
/// those of the first chunk and then those that the second one completes are the
/// records of both together.
pub proof fn records_do_not_depend_on_chunks(
    a: Seq<char>,
    b: Seq<char>,
    want_uuid: Seq<char>,
)
    ensures
        frame_records(events::complete_frames(a + b), want_uuid) == frame_records(
            events::complete_frames(a),
            want_uuid,
        ) + frame_records(
            events::complete_frames(events::incomplete_rest(a) + b),
            want_uuid,
        ),
{
    events::chunks_do_not_matter(a, b);
    lemma_frame_records_split(
        events::complete_frames(a),
        events::complete_frames(events::incomplete_rest(a) + b),
        want_uuid,
    );
}

/// Frames give their records one after the other, each the records of its own
/// results.
pub proof fn frames_give_records_in_order(
    frames: Seq<Seq<char>>,
    frame: Seq<char>,
    want_uuid: Seq<char>,
)
    ensures
        frame_records(Seq::empty(), want_uuid) == Seq::<RecordView>::empty(),
        frame_records(frames.push(frame), want_uuid) == frame_records(frames, want_uuid)
            + events::records_of(events::frame_items(frame, want_uuid)),
{
    assert(frames.push(frame).drop_last() == frames);
}

/// A feed is given up twenty seconds after it was last heard, and not before; a
/// clock that went back counts as no time.
pub proof fn feed_is_given_up_after_twenty_seconds(feed: RemoteFeed, now: u64, left: Option<u64>)
    requires
        call_ensures(RemoteFeed::time_left, (&feed, now), left),
    ensures
        now >= feed@.quiet_since + 20_000_000_000 <==> left is None,
        now <= feed@.quiet_since ==> left == Some(20_000_000_000u64),
        left matches Some(t) ==> feed@.quiet_since <= now ==> now + t == feed@.quiet_since
            + 20_000_000_000,
{
}

/// A feed gives the records of the search that it listens to, keeps what is not yet
/// complete, and counts as heard only where something was found.
pub proof fn feed_listens_to_its_search(
    feed: &mut RemoteFeed,
    chunk: &[u8],
    r: Vec<DiscoveryRecord>,
    other: &mut RemoteFeed,
    found: bool,
    now: u64,
    want_uuid: &str,
    fresh: RemoteFeed,
)
    requires
        call_ensures(RemoteFeed::receive, (feed, chunk), r),
        call_ensures(RemoteFeed::handled, (other, found, now), ()),
        call_ensures(RemoteFeed::new, (want_uuid, now), fresh),
    ensures
        ({
            let all = old(feed)@.pending + events::lossy_text(chunk@);
            &&& record::record_views(r@) == frame_records(
                events::complete_frames(all),
                old(feed)@.want_uuid,
            )
            &&& final(feed)@.pending == events::incomplete_rest(all)
            &&& final(feed)@.want_uuid == old(feed)@.want_uuid
            &&& final(feed)@.quiet_since == old(feed)@.quiet_since
        }),
        found ==> final(other)@.quiet_since == now,
        !found ==> final(other)@.quiet_since == old(other)@.quiet_since,
        final(other)@.pending == old(other)@.pending,
        final(other)@.want_uuid == old(other)@.want_uuid,
        fresh@.want_uuid == want_uuid@,
        fresh@.pending.len() == 0,
        fresh@.quiet_since == now,
{
}

} // verus!
