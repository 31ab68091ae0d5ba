//! Escape coding of the interface wire protocol: backslash, tab, newline and
//! carriage return are written as two-character escapes; unescaping reverses
//! this, and any other backslash-prefixed character loses the backslash.

use vstd::prelude::*;

use crate::strutil::{chars_string, str_chars};

verus! {

/// A character the wire protocol escapes.
pub open spec fn is_special_char(c: char) -> bool {
    c == '\\' || c == '\t' || c == '\n' || c == '\r'
}

/// The escape coding of one character.
pub open spec fn escape_char(c: char) -> Seq<char> {
    if c == '\\' {
        seq!['\\', '\\']
    } else if c == '\t' {
        seq!['\\', 't']
    } else if c == '\n' {
        seq!['\\', 'n']
    } else if c == '\r' {
        seq!['\\', 'r']
    } else {
        seq![c]
    }
}

/// The escape coding of a character sequence.
pub open spec fn escape_seq(s: Seq<char>) -> Seq<char>
    decreases s.len(),
{
    if s.len() == 0 {
        Seq::empty()
    } else {
        escape_char(s[0]) + escape_seq(s.drop_first())
    }
}

/// One step of unescaping: `pending` says whether the previous character was
/// an unconsumed backslash. A trailing lone backslash is dropped.
pub open spec fn unescape_seq(s: Seq<char>, pending: bool) -> Seq<char>
    decreases s.len(),
{
    if s.len() == 0 {
        Seq::empty()
    } else {
        let c = s[0];
        let rest = s.drop_first();
        if c == '\\' {
            if pending {
                seq!['\\'] + unescape_seq(rest, false)
            } else {
                unescape_seq(rest, true)
            }
        } else if c == 't' {
            seq![if pending { '\t' } else { 't' }] + unescape_seq(rest, false)
        } else if c == 'n' {
            seq![if pending { '\n' } else { 'n' }] + unescape_seq(rest, false)
        } else if c == 'r' {
            seq![if pending { '\r' } else { 'r' }] + unescape_seq(rest, false)
        } else {
            seq![c] + unescape_seq(rest, false)
        }
    }
}

proof fn lemma_escape_snoc(s: Seq<char>, c: char)
    ensures
        escape_seq(s.push(c)) == escape_seq(s) + escape_char(c),
    decreases s.len(),
{
    if s.len() == 0 {
        assert(s.push(c).drop_first() =~= Seq::<char>::empty());
        assert(s.push(c)[0] == c);
        assert(escape_seq(Seq::<char>::empty()) =~= Seq::<char>::empty());
        assert(escape_seq(s.push(c)) =~= escape_char(c));
        assert(escape_seq(s) + escape_char(c) =~= escape_char(c));
    } else {
        assert(s.push(c).drop_first() =~= s.drop_first().push(c));
        lemma_escape_snoc(s.drop_first(), c);
        assert(escape_seq(s.push(c)) =~= escape_seq(s) + escape_char(c));
    }
}

/// Escapes a character vector.
pub fn escape_chars(s: &Vec<char>) -> (r: Vec<char>)
    ensures
        r@ == escape_seq(s@),
{
    let mut out: Vec<char> = Vec::new();
    let mut i: usize = 0;
    while i < s.len()
        invariant
            i <= s.len(),
            out@ == escape_seq(s@.take(i as int)),
        decreases s.len() - i,
    {
        let c = s[i];
        if c == '\\' {
            out.push('\\');
            out.push('\\');
        } else if c == '\t' {
            out.push('\\');
            out.push('t');
        } else if c == '\n' {
            out.push('\\');
            out.push('n');
        } else if c == '\r' {
            out.push('\\');
            out.push('r');
        } else {
            out.push(c);
        }
        proof {
            assert(s@.take(i + 1 as int) =~= s@.take(i as int).push(s@[i as int]));
            lemma_escape_snoc(s@.take(i as int), s@[i as int]);
            assert(out@ =~= escape_seq(s@.take(i as int)) + escape_char(s@[i as int]));
        }
        i = i + 1;
    }
    proof {
        assert(s@.take(s@.len() as int) =~= s@);
    }
    out
}

/// Escapes a string for the wire protocol.
pub fn escape(msg: &str) -> (r: String)
    ensures
        r@ == escape_seq(msg@),
{
    let v = str_chars(msg);
    let out = escape_chars(&v);
    chars_string(&out)
}

/// Unescapes a character vector.
pub fn unescape_chars(s: &Vec<char>) -> (r: Vec<char>)
    ensures
        r@ == unescape_seq(s@, false),
{
    let mut out: Vec<char> = Vec::new();
    let mut pending = false;
    let mut i: usize = 0;
    proof {
        assert(s@.skip(0) =~= s@);
    }
    while i < s.len()
        invariant
            i <= s.len(),
            unescape_seq(s@, false) == out@ + unescape_seq(s@.skip(i as int), pending),
        decreases s.len() - i,
    {
        let c = s[i];
        proof {
            assert(s@.skip(i as int).drop_first() =~= s@.skip(i + 1 as int));
            assert(s@.skip(i as int)[0] == s@[i as int]);
        }
        if c == '\\' {
            if pending {
                out.push('\\');
                pending = false;
            } else {
                pending = true;
            }
        } else if c == 't' {
            out.push(if pending { '\t' } else { 't' });
            pending = false;
        } else if c == 'n' {
            out.push(if pending { '\n' } else { 'n' });
            pending = false;
        } else if c == 'r' {
            out.push(if pending { '\r' } else { 'r' });
            pending = false;
        } else {
            out.push(c);
            pending = false;
        }
        i = i + 1;
        proof {
            assert(unescape_seq(s@, false) =~= out@ + unescape_seq(s@.skip(i as int), pending));
        }
    }
    proof {
        assert(s@.skip(s@.len() as int) =~= Seq::<char>::empty());
        assert(unescape_seq(s@, false) =~= out@);
    }
    out
}

/// Unescapes a string from the wire protocol.
pub fn unescape(msg: &str) -> (r: String)
    ensures
        r@ == unescape_seq(msg@, false),
{
    let v = str_chars(msg);
    let out = unescape_chars(&v);
    chars_string(&out)
}

/// Escaping and then unescaping gives the original back, for every string.
pub proof fn lemma_escape_round_trip(s: Seq<char>)
    ensures
        unescape_seq(escape_seq(s), false) == s,
    decreases s.len(),
{
    if s.len() == 0 {
        assert(unescape_seq(escape_seq(s), false) =~= s);
    } else {
        let c = s[0];
        let rest = s.drop_first();
        lemma_escape_round_trip(rest);
        let e = escape_seq(s);
        if c == '\\' || c == '\t' || c == '\n' || c == '\r' {
            let mark = if c == '\\' { '\\' } else if c == '\t' { 't' } else if c == '\n' { 'n' }
            else { 'r' };
            assert(e == seq!['\\', mark] + escape_seq(rest));
            let e1 = e.drop_first();
            assert(e[0] == '\\');
            assert(e1 =~= seq![mark] + escape_seq(rest));
            assert(unescape_seq(e, false) == unescape_seq(e1, true));
            assert(e1[0] == mark);
            assert(e1.drop_first() =~= escape_seq(rest));
            assert(unescape_seq(e1, true) == seq![c] + unescape_seq(escape_seq(rest), false));
            assert(unescape_seq(e, false) =~= s);
        } else {
            assert(e == seq![c] + escape_seq(rest));
            assert(e[0] == c);
            assert(e.drop_first() =~= escape_seq(rest));
            assert(unescape_seq(e, false) == seq![c] + unescape_seq(escape_seq(rest), false));
            assert(unescape_seq(e, false) =~= s);
        }
    }
}

/// A sequence without special characters is unchanged by escaping.
pub proof fn lemma_escape_plain(s: Seq<char>)
    requires
        forall|i: int| 0 <= i < s.len() ==> !is_special_char(s[i]),
    ensures
        escape_seq(s) == s,
    decreases s.len(),
{
    if s.len() == 0 {
        assert(escape_seq(s) =~= s);
    } else {
        lemma_escape_plain(s.drop_first());
        assert(escape_seq(s) =~= seq![s[0]] + s.drop_first());
        assert(escape_seq(s) =~= s);
    }
}

} // verus!
