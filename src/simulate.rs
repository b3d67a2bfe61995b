use vstd::prelude::*;
use crate::fetcher::{descending_reversed, normalized, page_fits, reversed, ChannelFetcher, FetchAction};
use crate::model::{all_after, ascending, lemma_ascending_ordered, Message, SENTINEL_CURSOR};

verus! {

/// A stand-in for the remote source of one channel: it holds the whole history,
/// answers in pages of at most `page_size` messages, newest first, and fails
/// transiently on its first `failures_left` requests.
pub struct SimulatedSource {
    pub history: Vec<Message>,
    pub page_size: usize,
    pub failures_left: u64,
}

/// The page that the source returns after `cursor` when it starts at index `p`.
pub open spec fn page_from(history: Seq<Message>, page_size: usize, p: int) -> Seq<Message> {
    let end = if p + page_size <= history.len() { p + page_size } else { history.len() as int };
    reversed(history.subrange(p, end))
}

/// `p` is the first index of `history` whose id comes after `cursor`.
pub open spec fn first_after(history: Seq<Message>, cursor: u64, p: int) -> bool {
    &&& 0 <= p <= history.len()
    &&& forall|j: int| 0 <= j < p ==> #[trigger] history[j].id <= cursor
    &&& p < history.len() ==> history[p].id > cursor
}

impl SimulatedSource {
    /// A history in ascending order of positive ids, and pages of at least one message.
    pub open spec fn wf(&self) -> bool {
        &&& ascending(self.history@)
        &&& all_after(self.history@, SENTINEL_CURSOR)
        &&& self.page_size > 0
    }

    /// One request for the page after `cursor`: `None` for a transient failure.
    pub fn fetch_page(&mut self, cursor: u64) -> (r: Option<Vec<Message>>)
        ensures
            final(self).history == old(self).history,
            final(self).page_size == old(self).page_size,
            old(self).failures_left > 0 ==> r is None
                && final(self).failures_left == old(self).failures_left - 1,
            old(self).failures_left == 0 ==> final(self).failures_left == 0 && (r matches Some(page)
                && exists|p: int| first_after(old(self).history@, cursor, p)
                    && page@ == page_from(old(self).history@, old(self).page_size, p)),
    {
        if self.failures_left > 0 {
            self.failures_left = self.failures_left - 1;
            return None;
        }
        let n = self.history.len();
        let mut p: usize = 0;
        while p < n && self.history[p].id <= cursor
            invariant
                n == self.history@.len(),
                p <= n,
                forall|j: int| 0 <= j < p ==> #[trigger] self.history@[j].id <= cursor,
            decreases n - p,
        {
            p = p + 1;
        }
        let end: usize = if self.page_size <= n - p { p + self.page_size } else { n };
        let ghost h = self.history@;
        let mut page: Vec<Message> = Vec::new();
        let mut k: usize = end;
        while k > p
            invariant
                p <= k <= end <= n,
                n == h.len(),
                h == self.history@,
                page@ == reversed(h.subrange(k as int, end as int)),
            decreases k,
        {
            k = k - 1;
            let m = self.history[k].duplicate();
            page.push(m);
            assert(page@ =~= reversed(h.subrange(k as int, end as int)));
        }
        assert(first_after(h, cursor, p as int));
        assert(page@ =~= page_from(h, self.page_size, p as int));
        Some(page)
    }
}

/// The cursor after `pos` delivered messages points at index `pos`.
proof fn lemma_cursor_position(h: Seq<Message>, pos: int)
    requires
        ascending(h),
        all_after(h, SENTINEL_CURSOR),
        0 <= pos <= h.len(),
    ensures
        first_after(h, if pos == 0 { SENTINEL_CURSOR } else { h[pos - 1].id }, pos),
{
    let cursor = if pos == 0 { SENTINEL_CURSOR } else { h[pos - 1].id };
    assert forall|j: int| 0 <= j < pos implies #[trigger] h[j].id <= cursor by {
        if j < pos - 1 {
            lemma_ascending_ordered(h, j, pos - 1);
        }
    }
    if pos < h.len() && pos > 0 {
        assert(h[pos - 1].id < h[pos].id);
    }
}

proof fn lemma_first_after_unique(h: Seq<Message>, cursor: u64, p: int, q: int)
    requires
        first_after(h, cursor, p),
        first_after(h, cursor, q),
    ensures
        p == q,
{
    if p < q {
        assert(h[p].id <= cursor);
    }
    if p > q {
        assert(h[q].id <= cursor);
    }
}

/// A page of the source fits the fetcher's cursor, and comes back to ascending order.
proof fn lemma_page_fits(h: Seq<Message>, page_size: usize, pos: int, cursor: u64)
    requires
        ascending(h),
        first_after(h, cursor, pos),
    ensures
        page_fits(cursor, page_from(h, page_size, pos)),
        normalized(page_from(h, page_size, pos)) == h.subrange(pos, page_end(h, page_size, pos)),
{
    let end = if pos + page_size <= h.len() { pos + page_size } else { h.len() as int };
    let sub = h.subrange(pos, end);
    let page = page_from(h, page_size, pos);
    assert(ascending(sub)) by {
        assert forall|i: int| 0 <= i < sub.len() - 1 implies #[trigger] sub[i].id < sub[i + 1].id by {
            assert(h[pos + i].id < h[pos + i + 1].id);
        }
    }
    descending_reversed(sub);
    assert(all_after(page, cursor)) by {
        assert forall|i: int| 0 <= i < page.len() implies #[trigger] page[i].id > cursor by {
            let k = end - 1 - i;
            assert(page[i] == h[k]);
            if pos < k {
                lemma_ascending_ordered(h, pos, k);
            }
        }
    }
    assert(reversed(reversed(sub)) =~= sub);
}

/// The cursor of a fetcher that has delivered the first `pos` messages of `h`.
pub open spec fn cursor_at(h: Seq<Message>, pos: int) -> u64 {
    if pos == 0 {
        SENTINEL_CURSOR
    } else {
        h[pos - 1].id
    }
}

/// Where the page that starts at `pos` ends.
pub open spec fn page_end(h: Seq<Message>, page_size: usize, pos: int) -> int {
    if pos + page_size <= h.len() {
        pos + page_size
    } else {
        h.len() as int
    }
}

/// Hands the page that starts at `pos` to the fetcher and writes what it delivers.
/// Returns whether the fetcher completed.
fn take_page(
    fetcher: &mut ChannelFetcher,
    written: &mut Vec<Message>,
    page: Vec<Message>,
    Ghost(h): Ghost<Seq<Message>>,
    Ghost(page_size): Ghost<usize>,
    Ghost(pos): Ghost<int>,
) -> (completed: bool)
    requires
        ascending(h),
        0 <= pos <= h.len(),
        !old(fetcher).done,
        old(fetcher).cursor == cursor_at(h, pos),
        first_after(h, cursor_at(h, pos), pos),
        page@ == page_from(h, page_size, pos),
        old(written)@ == h.subrange(0, pos),
    ensures
        completed == final(fetcher).done,
        completed == (page_end(h, page_size, pos) == pos),
        final(written)@ == h.subrange(0, page_end(h, page_size, pos)),
        !completed ==> final(fetcher).cursor == cursor_at(h, page_end(h, page_size, pos)),
        completed ==> final(fetcher).cursor == old(fetcher).cursor,
{
    let ghost end = page_end(h, page_size, pos);
    proof {
        lemma_page_fits(h, page_size, pos, fetcher.cursor);
    }
    match fetcher.on_page(page) {
        FetchAction::Deliver { mut messages, next_after } => {
            assert(messages@ == h.subrange(pos, end));
            assert(messages@.last() == h[end - 1]);
            written.append(&mut messages);
            assert(h.subrange(0, pos) + h.subrange(pos, end) =~= h.subrange(0, end));
            false
        },
        FetchAction::Complete => {
            true
        },
    }
}

/// Runs the fetcher of one channel against `source` until the channel is drained,
/// writing each delivered message in turn. Returns the messages written and the
/// number of completion signals.
pub fn drain_channel(source: &mut SimulatedSource) -> (r: (Vec<Message>, u64))
    requires
        old(source).wf(),
    ensures
        r.0@ == old(source).history@,
        r.1 == 1,
{
    let ghost h = source.history@;
    let ghost n = h.len();
    let mut fetcher = ChannelFetcher::new();
    let mut written: Vec<Message> = Vec::new();
    let mut completions: u64 = 0;
    let ghost mut pos: int = 0;
    while !fetcher.done
        invariant
            source.wf(),
            source.history@ == h,
            n == h.len(),
            0 <= pos <= n,
            written@ == h.subrange(0, pos),
            fetcher.cursor == cursor_at(h, pos),
            !fetcher.done ==> completions == 0,
            fetcher.done ==> pos == n && completions == 1,
        decreases source.failures_left + (n - pos) + (if fetcher.done { 0int } else { 1int }),
    {
        proof {
            lemma_cursor_position(h, pos);
        }
        let cursor = fetcher.cursor;
        match source.fetch_page(cursor) {
            None => {
                fetcher.on_failure();
            },
            Some(page) => {
                let ghost p = choose|p: int| first_after(h, cursor, p)
                    && page@ == page_from(h, source.page_size, p);
                proof {
                    lemma_first_after_unique(h, cursor, p, pos);
                }
                let completed = take_page(&mut fetcher, &mut written, page, Ghost(h), Ghost(source.page_size), Ghost(pos));
                if completed {
                    completions = completions + 1;
                }
                proof {
                    pos = page_end(h, source.page_size, pos);
                }
            },
        }
    }
    assert(h.subrange(0, n as int) =~= h);
    (written, completions)
}

} // verus!
