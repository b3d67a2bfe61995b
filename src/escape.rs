use vstd::prelude::*;

verus! {

/// The escaped form of `s`: every newline becomes a backslash followed by `n`.
pub open spec fn escaped(s: Seq<char>) -> Seq<char>
    decreases s.len(),
{
    if s.len() == 0 {
        Seq::empty()
    } else {
        let head = if s[0] == '\n' { seq!['\\', 'n'] } else { seq![s[0]] };
        head + escaped(s.drop_first())
    }
}

/// Reads an escaped row back: every backslash followed by `n` becomes a newline.
pub open spec fn unescaped(t: Seq<char>) -> Seq<char>
    decreases t.len(),
{
    if t.len() == 0 {
        Seq::empty()
    } else if t.len() >= 2 && t[0] == '\\' && t[1] == 'n' {
        seq!['\n'] + unescaped(t.subrange(2, t.len() as int))
    } else {
        seq![t[0]] + unescaped(t.drop_first())
    }
}

/// `s` holds no backslash directly followed by `n`, so its escaped form is unambiguous.
pub open spec fn unambiguous(s: Seq<char>) -> bool {
    forall|i: int| 0 <= i < s.len() - 1 ==> !(#[trigger] s[i] == '\\' && s[i + 1] == 'n')
}

/// An escaped string never holds a newline: each record stays on one line.
pub proof fn lemma_escaped_single_line(s: Seq<char>)
    ensures
        forall|i: int| 0 <= i < escaped(s).len() ==> escaped(s)[i] != '\n',
    decreases s.len(),
{
    if s.len() > 0 {
        lemma_escaped_single_line(s.drop_first());
        let head = if s[0] == '\n' { seq!['\\', 'n'] } else { seq![s[0]] };
        assert(escaped(s) == head + escaped(s.drop_first()));
        assert forall|i: int| 0 <= i < escaped(s).len() implies escaped(s)[i] != '\n' by {
            if i >= head.len() {
                assert(escaped(s)[i] == escaped(s.drop_first())[i - head.len()]);
            }
        }
    }
}

proof fn lemma_escaped_first(s: Seq<char>)
    requires
        s.len() > 0,
    ensures
        escaped(s).len() > 0,
        escaped(s)[0] == (if s[0] == '\n' { '\\' } else { s[0] }),
{
    let head = if s[0] == '\n' { seq!['\\', 'n'] } else { seq![s[0]] };
    assert(escaped(s) == head + escaped(s.drop_first()));
}

/// Escaping and then unescaping gives back the same content, for every content
/// that holds no backslash directly followed by `n`.
pub proof fn lemma_escape_round_trip(s: Seq<char>)
    requires
        unambiguous(s),
    ensures
        unescaped(escaped(s)) == s,
    decreases s.len(),
{
    if s.len() > 0 {
        let rest = s.drop_first();
        assert(unambiguous(rest)) by {
            assert forall|i: int| 0 <= i < rest.len() - 1 implies !(#[trigger] rest[i] == '\\' && rest[i + 1] == 'n') by {
                assert(rest[i] == s[i + 1] && rest[i + 1] == s[i + 2]);
            }
        }
        lemma_escape_round_trip(rest);
        let t = escaped(s);
        if s[0] == '\n' {
            assert(t == seq!['\\', 'n'] + escaped(rest));
            assert(t.subrange(2, t.len() as int) =~= escaped(rest));
            assert(unescaped(t) == seq!['\n'] + unescaped(escaped(rest)));
        } else {
            assert(t == seq![s[0]] + escaped(rest));
            assert(t.drop_first() =~= escaped(rest));
            if t.len() >= 2 && t[0] == '\\' && t[1] == 'n' {
                lemma_escaped_first(rest);
                assert(t[1] == escaped(rest)[0]);
                assert(rest[0] == 'n');
                assert(s[1] == 'n');
                assert(false);
            }
            assert(unescaped(t) == seq![s[0]] + unescaped(escaped(rest)));
        }
        assert(unescaped(t) =~= s);
    }
}

/// Escaping distributes over concatenation.
pub proof fn lemma_escaped_concat(a: Seq<char>, b: Seq<char>)
    ensures
        escaped(a + b) == escaped(a) + escaped(b),
    decreases a.len(),
{
    if a.len() > 0 {
        lemma_escaped_concat(a.drop_first(), b);
        assert((a + b).drop_first() =~= a.drop_first() + b);
        let head = if a[0] == '\n' { seq!['\\', 'n'] } else { seq![a[0]] };
        assert(escaped(a + b) == head + escaped(a.drop_first() + b));
        assert(escaped(a) == head + escaped(a.drop_first()));
        assert(escaped(a + b) =~= escaped(a) + escaped(b));
    } else {
        assert(a + b =~= b);
        assert(escaped(a) + escaped(b) =~= escaped(b));
    }
}

/// Relies on `String`'s `FromIterator<char>`: the string holds the characters in order.
#[verifier::external_body]
pub(crate) fn string_of_chars(v: &Vec<char>) -> (r: String)
    ensures
        r@ == v@,
{
    v.iter().collect()
}

/// Escapes every newline of `content` as the two characters backslash and `n`.
pub fn escape_newlines(content: &str) -> (r: String)
    ensures
        r@ == escaped(content@),
{
    let n = content.unicode_len();
    let mut out: Vec<char> = Vec::new();
    let mut i: usize = 0;
    while i < n
        invariant
            n == content@.len(),
            i <= n,
            out@ == escaped(content@.subrange(0, i as int)),
        decreases n - i,
    {
        let c = content.get_char(i);
        proof {
            let s = content@;
            assert(s.subrange(0, i + 1) =~= s.subrange(0, i as int) + seq![c]);
            lemma_escaped_concat(s.subrange(0, i as int), seq![c]);
            assert(seq![c].drop_first() =~= Seq::<char>::empty());
        }
        if c == '\n' {
            out.push('\\');
            out.push('n');
        } else {
            out.push(c);
        }
        proof {
            let head = if c == '\n' { seq!['\\', 'n'] } else { seq![c] };
            assert(seq![c].drop_first() =~= Seq::<char>::empty());
            assert(escaped(Seq::<char>::empty()) == Seq::<char>::empty());
            assert(escaped(seq![c]) == head + escaped(seq![c].drop_first()));
            assert(escaped(seq![c]) =~= head);
        }
        assert(out@ =~= escaped(content@.subrange(0, i + 1)));
        i = i + 1;
    }
    assert(content@.subrange(0, n as int) =~= content@);
    string_of_chars(&out)
}

/// Turns every backslash followed by `n` back into a newline.
pub fn unescape_newlines(row: &str) -> (r: String)
    ensures
        r@ == unescaped(row@),
{
    let n = row.unicode_len();
    let mut out: Vec<char> = Vec::new();
    let mut i: usize = 0;
    assert(row@.subrange(0, n as int) =~= row@);
    assert(out@ + row@ =~= row@);
    while i < n
        invariant
            n == row@.len(),
            i <= n,
            out@ + unescaped(row@.subrange(i as int, n as int)) == unescaped(row@),
        decreases n - i,
    {
        let ghost t = row@.subrange(i as int, n as int);
        let c = row.get_char(i);
        if c == '\\' && i + 1 < n && row.get_char(i + 1) == 'n' {
            assert(t.subrange(2, t.len() as int) =~= row@.subrange(i + 2, n as int));
            out.push('\n');
            i = i + 2;
        } else {
            assert(t.drop_first() =~= row@.subrange(i + 1, n as int));
            out.push(c);
            i = i + 1;
        }
    }
    assert(row@.subrange(n as int, n as int) =~= Seq::<char>::empty());
    assert(out@ + Seq::<char>::empty() =~= out@);
    string_of_chars(&out)
}

} // verus!
