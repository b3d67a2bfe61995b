use vstd::prelude::*;
use crate::model::Message;
use crate::simulate::{drain_channel, SimulatedSource};
use crate::sink::{RecvOutcome, SendOutcome, SharedSink};

verus! {

/// The messages of `s` that belong to channel `cid`, in their order.
pub open spec fn of_channel(s: Seq<Message>, cid: u64) -> Seq<Message>
    decreases s.len(),
{
    if s.len() == 0 {
        Seq::empty()
    } else {
        let rest = of_channel(s.drop_last(), cid);
        if s.last().channel_id == cid {
            rest.push(s.last())
        } else {
            rest
        }
    }
}

pub proof fn lemma_of_channel_push(s: Seq<Message>, x: Message, cid: u64)
    ensures
        of_channel(s.push(x), cid) == if x.channel_id == cid {
            of_channel(s, cid).push(x)
        } else {
            of_channel(s, cid)
        },
{
    assert(s.push(x).drop_last() =~= s);
}

/// The histories of the channels, each tagged with its own distinct channel id.
pub open spec fn channels_wf(histories: Seq<Vec<Message>>, ids: Seq<u64>) -> bool {
    &&& ids.len() == histories.len()
    &&& forall|c: int, i: int|
        0 <= c < histories.len() && 0 <= i < histories[c]@.len() ==> #[trigger] histories[c]@[i].channel_id
            == ids[c]
    &&& forall|c: int, d: int| 0 <= c < ids.len() && 0 <= d < ids.len() && c != d ==> ids[c] != ids[d]
}

/// Messages not yet sent, over channels `0..upto`.
pub open spec fn unsent(histories: Seq<Vec<Message>>, sent: Seq<usize>, upto: int) -> int
    decreases upto,
{
    if upto <= 0 {
        0
    } else {
        unsent(histories, sent, upto - 1) + (histories[upto - 1]@.len() - sent[upto - 1])
    }
}

proof fn lemma_unsent_step(histories: Seq<Vec<Message>>, sent: Seq<usize>, c: int, upto: int)
    requires
        0 <= c < sent.len(),
        sent[c] < histories[c]@.len(),
        0 <= upto <= sent.len(),
        sent.len() == histories.len(),
        sent[c] + 1 <= usize::MAX,
    ensures
        unsent(histories, sent.update(c, (sent[c] + 1) as usize), upto) == unsent(histories, sent, upto)
            - (if c < upto { 1int } else { 0int }),
    decreases upto,
{
    if upto > 0 {
        lemma_unsent_step(histories, sent, c, upto - 1);
        let s2 = sent.update(c, (sent[c] + 1) as usize);
        assert(s2[upto - 1] == if upto - 1 == c { (sent[c] + 1) as usize } else { sent[upto - 1] });
    }
}

proof fn lemma_unsent_positive(histories: Seq<Vec<Message>>, sent: Seq<usize>, c: int, upto: int)
    requires
        0 <= c < upto <= sent.len(),
        sent.len() == histories.len(),
        forall|d: int| 0 <= d < sent.len() ==> sent[d] <= #[trigger] histories[d]@.len(),
        sent[c] < histories[c]@.len(),
    ensures
        unsent(histories, sent, upto) >= 1,
    decreases upto,
{
    if upto - 1 > c {
        lemma_unsent_positive(histories, sent, c, upto - 1);
        lemma_unsent_nonneg(histories, sent, upto - 1);
    } else {
        lemma_unsent_nonneg(histories, sent, upto - 1);
    }
}

proof fn lemma_unsent_nonneg(histories: Seq<Vec<Message>>, sent: Seq<usize>, upto: int)
    requires
        0 <= upto <= sent.len(),
        sent.len() == histories.len(),
        forall|d: int| 0 <= d < sent.len() ==> sent[d] <= #[trigger] histories[d]@.len(),
    ensures
        unsent(histories, sent, upto) >= 0,
    decreases upto,
{
    if upto > 0 {
        lemma_unsent_nonneg(histories, sent, upto - 1);
    }
}

/// A channel at or after `start`, else any channel, that still has messages to send.
fn next_pending(histories: &Vec<Vec<Message>>, sent: &Vec<usize>, start: usize) -> (r: Option<usize>)
    requires
        sent@.len() == histories@.len(),
    ensures
        r matches Some(c) ==> c < histories@.len() && sent@[c as int] < histories@[c as int]@.len(),
        r is None ==> forall|d: int| 0 <= d < histories@.len() ==> sent@[d] >= #[trigger] histories@[d]@.len(),
{
    let k = histories.len();
    let mut c: usize = start;
    while c < k
        invariant
            k == histories@.len(),
            sent@.len() == k,
        decreases k - c,
    {
        if sent[c] < histories[c].len() {
            return Some(c);
        }
        c = c + 1;
    }
    let mut d: usize = 0;
    while d < k
        invariant
            k == histories@.len(),
            sent@.len() == k,
            forall|e: int| 0 <= e < d ==> sent@[e] >= #[trigger] histories@[e]@.len(),
        decreases k - d,
    {
        if sent[d] < histories[d].len() {
            return Some(d);
        }
        d = d + 1;
    }
    None
}

/// Feeds the histories of several channels through one bounded sink of the given
/// capacity into a single writer, producers taking turns and waiting while the sink
/// is full. Returns the rows in the order the writer wrote them.
#[verifier::rlimit(50)]
pub fn run_pipeline(histories: &Vec<Vec<Message>>, ids: &Vec<u64>, capacity: usize) -> (written: Vec<Message>)
    requires
        capacity > 0,
        channels_wf(histories@, ids@),
    ensures
        forall|c: int|
            0 <= c < histories@.len() ==> of_channel(written@, #[trigger] ids@[c]) == histories@[c]@,
        forall|i: int|
            0 <= i < written@.len() ==> ids@.contains(#[trigger] written@[i].channel_id),
{
    let k = histories.len();
    let mut sent: Vec<usize> = Vec::new();
    while sent.len() < k
        invariant
            k == histories@.len(),
            sent@.len() <= k,
            forall|d: int| 0 <= d < sent@.len() ==> #[trigger] sent@[d] == 0,
        decreases k - sent@.len(),
    {
        sent.push(0);
    }
    let mut sink = SharedSink::new(capacity, k);
    let mut written: Vec<Message> = Vec::new();
    let mut turn: usize = 0;
    proof {
        assert forall|c: int| 0 <= c < k implies of_channel(written@ + sink.queued(), #[trigger] ids@[c])
            == histories@[c]@.subrange(0, sent@[c] as int) by {
            assert(written@ + sink.queued() =~= Seq::<Message>::empty());
            assert(histories@[c]@.subrange(0, 0) =~= Seq::<Message>::empty());
        }
        lemma_unsent_nonneg(histories@, sent@, k as int);
    }
    loop
        invariant
            k == histories@.len(),
            channels_wf(histories@, ids@),
            sent@.len() == k,
            forall|d: int| 0 <= d < k ==> sent@[d] <= #[trigger] histories@[d]@.len(),
            sink.wf(),
            sink.cap() == capacity,
            sink.open_handles() == k,
            forall|c: int| 0 <= c < k ==> of_channel(written@ + sink.queued(), #[trigger] ids@[c])
                == histories@[c]@.subrange(0, sent@[c] as int),
            forall|i: int| 0 <= i < (written@ + sink.queued()).len() ==> ids@.contains(
                #[trigger] (written@ + sink.queued())[i].channel_id),
        ensures
            forall|d: int| 0 <= d < k ==> sent@[d] == #[trigger] histories@[d]@.len(),
        decreases 2 * unsent(histories@, sent@, k as int) + sink.queued().len(),
    {
        let ghost flow = written@ + sink.queued();
        match next_pending(histories, &sent, turn) {
            None => {
                break;
            },
            Some(c) => {
                proof {
                    lemma_unsent_positive(histories@, sent@, c as int, k as int);
                }
                let j = sent[c];
                let lc = histories[c].len();
                let m = histories[c][j].duplicate();
                assert(m.channel_id == ids@[c as int]);
                match sink.try_send(m) {
                    SendOutcome::Sent => {
                        proof {
                            lemma_unsent_step(histories@, sent@, c as int, k as int);
                            let x = histories@[c as int]@[j as int];
                            assert(written@ + sink.queued() =~= flow.push(x));
                            assert forall|e: int| 0 <= e < k implies of_channel(written@ + sink.queued(), #[trigger] ids@[e])
                                == histories@[e]@.subrange(0, sent@.update(c as int, (j + 1) as usize)[e] as int) by {
                                lemma_of_channel_push(flow, x, ids@[e]);
                                if e != c {
                                    assert(ids@[e] != ids@[c as int]);
                                    assert(sent@.update(c as int, (j + 1) as usize)[e] == sent@[e]);
                                } else {
                                    assert(histories@[e]@.subrange(0, j + 1) =~= histories@[e]@.subrange(0, j as int).push(x));
                                }
                            }
                            assert forall|i: int| 0 <= i < (written@ + sink.queued()).len() implies ids@.contains(
                                #[trigger] (written@ + sink.queued())[i].channel_id) by {
                                if i == flow.len() {
                                    assert(ids@[c as int] == (written@ + sink.queued())[i].channel_id);
                                } else {
                                    assert((written@ + sink.queued())[i] == flow[i]);
                                }
                            }
                        }
                        sent.set(c, j + 1);
                        turn = if c + 1 < k { c + 1 } else { 0 };
                    },
                    SendOutcome::Full(_) => {
                        match sink.recv() {
                            RecvOutcome::Received(x) => {
                                written.push(x);
                                assert(written@ + sink.queued() =~= flow);
                            },
                            _ => {},
                        }
                    },
                    SendOutcome::Closed(_) => {},
                }
            },
        }
    }
    let ghost flow_end = written@ + sink.queued();
    proof {
        assert forall|c: int| 0 <= c < k implies of_channel(flow_end, #[trigger] ids@[c]) == histories@[c]@ by {
            assert(histories@[c]@.subrange(0, sent@[c] as int) =~= histories@[c]@);
        }
        assert forall|i: int| 0 <= i < flow_end.len() implies ids@.contains(#[trigger] flow_end[i].channel_id) by {
            assert(flow_end[i] == (written@ + sink.queued())[i]);
        }
    }
    let mut released: usize = 0;
    while released < k
        invariant
            sink.wf(),
            released <= k,
            sink.open_handles() == k - released,
            written@ + sink.queued() == flow_end,
            forall|c: int| 0 <= c < k ==> of_channel(flow_end, #[trigger] ids@[c]) == histories@[c]@,
            forall|i: int| 0 <= i < flow_end.len() ==> ids@.contains(#[trigger] flow_end[i].channel_id),
        decreases k - released,
    {
        sink.release();
        released = released + 1;
    }
    loop
        invariant
            sink.wf(),
            sink.open_handles() == 0,
            written@ + sink.queued() == flow_end,
        ensures
            written@ == flow_end,
        decreases sink.queued().len(),
    {
        let ghost q = sink.queued();
        match sink.recv() {
            RecvOutcome::Received(x) => {
                written.push(x);
                assert(written@ + sink.queued() =~= flow_end);
            },
            _ => {
                assert(written@ + sink.queued() =~= written@);
                break;
            },
        }
    }
    assert forall|i: int| 0 <= i < written@.len() implies ids@.contains(#[trigger] written@[i].channel_id) by {
        assert(written@[i] == flow_end[i]);
    }
    written
}

/// Archives several channels end to end: each channel's fetcher drains its source, and
/// the messages pass through one bounded sink of the given capacity to the writer.
/// Returns the rows written and the completion signals of each channel.
pub fn archive_channels(sources: Vec<SimulatedSource>, ids: &Vec<u64>, capacity: usize) -> (r: (
    Vec<Message>,
    Vec<u64>,
))
    requires
        capacity > 0,
        ids@.len() == sources@.len(),
        forall|c: int| 0 <= c < sources@.len() ==> (#[trigger] sources@[c]).wf(),
        forall|c: int, i: int|
            0 <= c < sources@.len() && 0 <= i < sources@[c].history@.len() ==> #[trigger] sources@[c].history@[i].channel_id
                == ids@[c],
        forall|c: int, d: int| 0 <= c < ids@.len() && 0 <= d < ids@.len() && c != d ==> ids@[c] != ids@[d],
    ensures
        forall|c: int|
            0 <= c < sources@.len() ==> of_channel(r.0@, #[trigger] ids@[c]) == sources@[c].history@,
        forall|i: int| 0 <= i < r.0@.len() ==> ids@.contains(#[trigger] r.0@[i].channel_id),
        r.1@.len() == sources@.len(),
        forall|c: int| 0 <= c < r.1@.len() ==> #[trigger] r.1@[c] == 1,
{
    let ghost orig = sources@;
    let k = sources.len();
    let mut rest = sources;
    let mut histories: Vec<Vec<Message>> = Vec::new();
    let mut completions: Vec<u64> = Vec::new();
    while rest.len() > 0
        invariant
            k == orig.len(),
            histories@.len() + rest@.len() == k,
            completions@.len() == histories@.len(),
            rest@ == orig.subrange(histories@.len() as int, k as int),
            forall|c: int| 0 <= c < histories@.len() ==> #[trigger] histories@[c]@ == orig[c].history@,
            forall|c: int| 0 <= c < completions@.len() ==> #[trigger] completions@[c] == 1,
            forall|c: int| 0 <= c < orig.len() ==> (#[trigger] orig[c]).wf(),
        decreases rest@.len(),
    {
        let ghost c = histories@.len() as int;
        let mut source = rest.remove(0);
        assert(source == orig[c]);
        let (written, done) = drain_channel(&mut source);
        histories.push(written);
        completions.push(done);
        assert(rest@ =~= orig.subrange(c + 1, k as int));
    }
    assert(channels_wf(histories@, ids@)) by {
        assert forall|c: int, i: int|
            0 <= c < histories@.len() && 0 <= i < histories@[c]@.len() implies #[trigger] histories@[c]@[i].channel_id
                == ids@[c] by {
            assert(histories@[c]@[i] == orig[c].history@[i]);
        }
    }
    let written = run_pipeline(&histories, ids, capacity);
    (written, completions)
}

} // verus!
