use vstd::prelude::*;
use crate::model::{all_after, ascending, descending, Message, SENTINEL_CURSOR};

verus! {

/// `s` read from its end to its start.
pub open spec fn reversed<T>(s: Seq<T>) -> Seq<T> {
    Seq::new(s.len(), |i: int| s[s.len() - 1 - i])
}

/// The page in ascending order, for a page that came either ascending or descending.
pub open spec fn normalized(page: Seq<Message>) -> Seq<Message> {
    if descending(page) {
        reversed(page)
    } else {
        page
    }
}

/// Reversing an ascending sequence gives a descending one.
pub proof fn descending_reversed(s: Seq<Message>)
    requires
        ascending(s),
    ensures
        descending(reversed(s)),
{
    let r = reversed(s);
    assert forall|i: int| 0 <= i < r.len() - 1 implies #[trigger] r[i].id > r[i + 1].id by {
        let k = s.len() - 2 - i;
        assert(s[k].id < s[k + 1].id);
    }
}

/// Whether each id of `page` is greater than the next one.
pub fn is_descending(page: &Vec<Message>) -> (r: bool)
    ensures
        r == descending(page@),
{
    let mut i: usize = 0;
    while page.len() - i > 1
        invariant
            i <= page@.len(),
            forall|j: int| 0 <= j < i ==> #[trigger] page@[j].id > page@[j + 1].id,
        decreases page.len() - i,
    {
        if page[i].id <= page[i + 1].id {
            return false;
        }
        i = i + 1;
    }
    true
}

/// Brings a page into ascending order of ids: a descending page is reversed, any other
/// page is kept as it came.
pub fn normalize_page(page: Vec<Message>) -> (r: Vec<Message>)
    ensures
        r@ == normalized(page@),
        descending(page@) || ascending(page@) ==> ascending(r@),
{
    if !is_descending(&page) {
        return page;
    }
    let ghost orig = page@;
    let mut rest = page;
    let mut out: Vec<Message> = Vec::new();
    while rest.len() > 0
        invariant
            rest@ == orig.subrange(0, rest@.len() as int),
            out@ == reversed(orig.subrange(rest@.len() as int, orig.len() as int)),
            rest@.len() <= orig.len(),
        decreases rest@.len(),
    {
        let m = rest.pop().unwrap();
        out.push(m);
        assert(out@ =~= reversed(orig.subrange(rest@.len() as int, orig.len() as int)));
        assert(rest@ =~= orig.subrange(0, rest@.len() as int));
    }
    assert(orig.subrange(0, orig.len() as int) =~= orig);
    proof {
        assert forall|i: int| 0 <= i < out@.len() - 1 implies #[trigger] out@[i].id < out@[i + 1].id by {
            let k = orig.len() - 2 - i;
            assert(orig[k].id > orig[k + 1].id);
        }
    }
    out
}

/// When a failed request is tried again. Without a maximum, a transient failure never
/// makes the fetcher abandon its channel.
#[derive(Debug, Clone, Copy, PartialEq, Eq, Structural)]
pub struct RetryPolicy {
    pub max_attempts: Option<u64>,
}

impl RetryPolicy {
    /// Retry for as long as it takes.
    pub fn unbounded() -> (r: Self)
        ensures
            r.max_attempts is None,
    {
        RetryPolicy { max_attempts: None }
    }

    /// Whether to try again after `attempt` failures in a row.
    pub fn should_retry(&self, attempt: u64) -> (r: bool)
        ensures
            r == match self.max_attempts {
                None => true,
                Some(m) => attempt < m,
            },
    {
        match self.max_attempts {
            None => true,
            Some(m) => attempt < m,
        }
    }
}

/// What the fetcher of one channel asks for next.
#[derive(Debug)]
pub enum FetchAction {
    /// Write these messages, in this order, then request the page after `next_after`.
    Deliver { messages: Vec<Message>, next_after: u64 },
    /// The history is drained: report the channel complete, once.
    Complete,
}

/// The state of the fetcher of one channel: `Fetching(cursor)` until it is `Done`.
#[derive(Debug, Clone, Copy, PartialEq, Eq, Structural)]
pub struct ChannelFetcher {
    pub cursor: u64,
    pub done: bool,
    /// Transient failures seen on the current request.
    pub attempts: u64,
}

/// The page a well-behaved source may return for `cursor`: every id after the cursor,
/// in ascending or descending order.
pub open spec fn page_fits(cursor: u64, page: Seq<Message>) -> bool {
    all_after(page, cursor) && (ascending(page) || descending(page))
}

impl ChannelFetcher {
    /// A fetcher at the start of its channel's history.
    pub fn new() -> (r: Self)
        ensures
            r.cursor == SENTINEL_CURSOR,
            !r.done,
            r.attempts == 0,
    {
        ChannelFetcher { cursor: SENTINEL_CURSOR, done: false, attempts: 0 }
    }

    /// The cursor to request next, while the channel is not drained.
    pub fn next_request(&self) -> (r: Option<u64>)
        ensures
            r == (if self.done { None } else { Some(self.cursor) }),
    {
        if self.done {
            None
        } else {
            Some(self.cursor)
        }
    }

    /// A transient failure: the same request is made again, with the cursor unchanged.
    pub fn on_failure(&mut self) -> (retry_after: u64)
        requires
            !old(self).done,
        ensures
            retry_after == old(self).cursor,
            final(self).cursor == old(self).cursor,
            !final(self).done,
            final(self).attempts == if old(self).attempts == u64::MAX {
                u64::MAX
            } else {
                (old(self).attempts + 1) as u64
            },
    {
        self.attempts = self.attempts.saturating_add(1);
        self.cursor
    }

    /// A page arrived for the current cursor. An empty page ends the channel; any other
    /// page is put in ascending order, delivered whole, and moves the cursor to its last id.
    pub fn on_page(&mut self, page: Vec<Message>) -> (r: FetchAction)
        requires
            !old(self).done,
            page_fits(old(self).cursor, page@),
        ensures
            final(self).attempts == 0,
            page@.len() == 0 ==> final(self).done && final(self).cursor == old(self).cursor
                && r is Complete,
            page@.len() > 0 ==> !final(self).done && (match r {
                FetchAction::Deliver { messages, next_after } => {
                    &&& messages@ == normalized(page@)
                    &&& ascending(messages@)
                    &&& next_after == final(self).cursor
                    &&& final(self).cursor == messages@.last().id
                    &&& final(self).cursor > old(self).cursor
                },
                FetchAction::Complete => false,
            }),
    {
        self.attempts = 0;
        if page.len() == 0 {
            self.done = true;
            return FetchAction::Complete;
        }
        let messages = normalize_page(page);
        let last = messages.len() - 1;
        let next_after = messages[last].id;
        assert(messages@.contains(messages@[last as int]));
        proof {
            if descending(page@) {
                assert(messages@[last as int] == page@[0]);
            }
        }
        self.cursor = next_after;
        FetchAction::Deliver { messages, next_after }
    }
}

/// Whether `page` is one that a well-behaved source may return for `cursor`.
pub fn page_is_well_formed(cursor: u64, page: &Vec<Message>) -> (r: bool)
    ensures
        r == page_fits(cursor, page@),
{
    let mut i: usize = 0;
    let mut up = true;
    while i < page.len()
        invariant
            i <= page@.len(),
            forall|j: int| 0 <= j < i ==> #[trigger] page@[j].id > cursor,
            up == (forall|j: int| 0 <= j < i - 1 ==> #[trigger] page@[j].id < page@[j + 1].id),
        decreases page.len() - i,
    {
        if page[i].id <= cursor {
            assert(!all_after(page@, cursor));
            return false;
        }
        if i > 0 && page[i - 1].id >= page[i].id {
            up = false;
        }
        i = i + 1;
    }
    assert(all_after(page@, cursor));
    assert(up == ascending(page@));
    up || is_descending(page)
}

} // verus!
