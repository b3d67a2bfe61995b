use vstd::prelude::*;

verus! {

/// The id that stands for "before the first message of a channel".
pub const SENTINEL_CURSOR: u64 = 0;

#[derive(Clone, Copy, Debug, PartialEq, Eq, Structural)]
pub enum ChannelKind {
    Text,
    Other,
}

/// A channel of a server, as discovered once at startup.
#[derive(Debug)]
pub struct ChannelDescriptor {
    pub id: u64,
    pub name: String,
    pub kind: ChannelKind,
}

/// One message of a channel's history.
#[derive(Debug)]
pub struct Message {
    pub id: u64,
    pub channel_id: u64,
    pub author_name: String,
    pub content: String,
}

impl Message {
    /// A field-by-field copy.
    pub fn duplicate(&self) -> (r: Message)
        ensures
            r == *self,
    {
        Message {
            id: self.id,
            channel_id: self.channel_id,
            author_name: self.author_name.clone(),
            content: self.content.clone(),
        }
    }
}

/// Ids increase from each message to the next.
pub open spec fn ascending(msgs: Seq<Message>) -> bool {
    forall|i: int| 0 <= i < msgs.len() - 1 ==> #[trigger] msgs[i].id < msgs[i + 1].id
}

/// Ids decrease from each message to the next.
pub open spec fn descending(msgs: Seq<Message>) -> bool {
    forall|i: int| 0 <= i < msgs.len() - 1 ==> #[trigger] msgs[i].id > msgs[i + 1].id
}

/// Every message comes after `cursor`.
pub open spec fn all_after(msgs: Seq<Message>, cursor: u64) -> bool {
    forall|i: int| 0 <= i < msgs.len() ==> #[trigger] msgs[i].id > cursor
}

/// In an ascending sequence every id is below every later one.
pub proof fn lemma_ascending_ordered(msgs: Seq<Message>, i: int, j: int)
    requires
        ascending(msgs),
        0 <= i < j < msgs.len(),
    ensures
        msgs[i].id < msgs[j].id,
    decreases j - i,
{
    if j > i + 1 {
        lemma_ascending_ordered(msgs, i, j - 1);
        assert(msgs[j - 1].id < msgs[j].id);
    }
}

/// The channels of `cs` whose kind is text, in their order.
pub open spec fn text_channels(cs: Seq<ChannelDescriptor>) -> Seq<ChannelDescriptor>
    decreases cs.len(),
{
    if cs.len() == 0 {
        Seq::empty()
    } else {
        let rest = text_channels(cs.drop_last());
        if cs.last().kind == ChannelKind::Text {
            rest.push(cs.last())
        } else {
            rest
        }
    }
}

/// Keeps the text channels of `channels`, in their order.
pub fn select_text_channels(channels: Vec<ChannelDescriptor>) -> (r: Vec<ChannelDescriptor>)
    ensures
        r@ == text_channels(channels@),
{
    let ghost all = channels@;
    let n = channels.len();
    let mut rest = channels;
    let mut kept: Vec<ChannelDescriptor> = Vec::new();
    let mut i: usize = 0;
    while rest.len() > 0
        invariant
            i + rest@.len() == all.len(),
            all.len() == n,
            rest@ == all.subrange(i as int, all.len() as int),
            kept@ == text_channels(all.subrange(0, i as int)),
        decreases rest@.len(),
    {
        let c = rest.remove(0);
        proof {
            let pre = all.subrange(0, i + 1);
            assert(pre.drop_last() =~= all.subrange(0, i as int));
            assert(pre.last() == c);
        }
        if c.kind == ChannelKind::Text {
            kept.push(c);
        }
        assert(rest@ =~= all.subrange(i + 1, all.len() as int));
        i = i + 1;
    }
    assert(all.subrange(0, i as int) =~= all);
    kept
}

} // verus!
