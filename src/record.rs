use vstd::prelude::*;
use crate::escape::{escape_newlines, escaped, string_of_chars};
use crate::model::Message;

verus! {

/// The character of a decimal digit.
pub open spec fn digit_char(d: nat) -> char {
    ((d + 48) as u8) as char
}

/// The decimal notation of `n`, without leading zeros.
pub open spec fn decimal(n: nat) -> Seq<char>
    decreases n,
{
    if n < 10 {
        seq![digit_char(n)]
    } else {
        decimal(n / 10).push(digit_char(n % 10))
    }
}

fn push_decimal(n: u64, out: &mut Vec<char>)
    ensures
        final(out)@ == old(out)@ + decimal(n as nat),
    decreases n,
{
    if n >= 10 {
        push_decimal(n / 10, out);
    }
    let d: u8 = (n % 10) as u8;
    let c = (d + 48) as char;
    out.push(c);
    assert(final(out)@ =~= old(out)@ + decimal(n as nat));
}

/// The decimal notation of `n`.
pub fn decimal_string(n: u64) -> (r: String)
    ensures
        r@ == decimal(n as nat),
{
    let mut out: Vec<char> = Vec::new();
    push_decimal(n, &mut out);
    assert(out@ =~= decimal(n as nat));
    string_of_chars(&out)
}

/// The four fields of the row written for a message: its id, its channel's id, its
/// author's name and its content with newlines escaped.
pub open spec fn row_of(m: Message) -> Seq<Seq<char>> {
    seq![decimal(m.id as nat), decimal(m.channel_id as nat), m.author_name@, escaped(m.content@)]
}

/// The fields of the row for `m`, in their fixed order.
pub fn record_fields(m: &Message) -> (r: Vec<String>)
    ensures
        r@.len() == 4,
        forall|i: int| 0 <= i < 4 ==> #[trigger] r@[i]@ == row_of(*m)[i],
{
    let mut r: Vec<String> = Vec::new();
    r.push(decimal_string(m.id));
    r.push(decimal_string(m.channel_id));
    r.push(m.author_name.clone());
    r.push(escape_newlines(m.content.as_str()));
    r
}

} // verus!
