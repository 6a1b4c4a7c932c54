use crate::model::TreeView;
use crate::string_tree::{lemma_tree_views_index, tree_view, tree_views, StringErrorTree};
use vstd::prelude::*;

verus! {

/// The lower-case hex digit for a value below 16.
pub open spec fn hex_digit(n: u32) -> char {
    if n == 0 {
        '0'
    } else if n == 1 {
        '1'
    } else if n == 2 {
        '2'
    } else if n == 3 {
        '3'
    } else if n == 4 {
        '4'
    } else if n == 5 {
        '5'
    } else if n == 6 {
        '6'
    } else if n == 7 {
        '7'
    } else if n == 8 {
        '8'
    } else if n == 9 {
        '9'
    } else if n == 10 {
        'a'
    } else if n == 11 {
        'b'
    } else if n == 12 {
        'c'
    } else if n == 13 {
        'd'
    } else if n == 14 {
        'e'
    } else {
        'f'
    }
}

/// The value of a hex digit, lower- or upper-case.
pub open spec fn hex_val(c: char) -> Option<u32> {
    if c == '0' {
        Some(0u32)
    } else if c == '1' {
        Some(1u32)
    } else if c == '2' {
        Some(2u32)
    } else if c == '3' {
        Some(3u32)
    } else if c == '4' {
        Some(4u32)
    } else if c == '5' {
        Some(5u32)
    } else if c == '6' {
        Some(6u32)
    } else if c == '7' {
        Some(7u32)
    } else if c == '8' {
        Some(8u32)
    } else if c == '9' {
        Some(9u32)
    } else if c == 'a' || c == 'A' {
        Some(10u32)
    } else if c == 'b' || c == 'B' {
        Some(11u32)
    } else if c == 'c' || c == 'C' {
        Some(12u32)
    } else if c == 'd' || c == 'D' {
        Some(13u32)
    } else if c == 'e' || c == 'E' {
        Some(14u32)
    } else if c == 'f' || c == 'F' {
        Some(15u32)
    } else {
        None
    }
}

/// How one character appears inside an encoded string: the quote, the
/// backslash and the named control characters get two-character escapes, the
/// remaining control characters get a four-digit hex escape, everything else
/// stands for itself.
pub open spec fn escape_char(c: char) -> Seq<char> {
    if c == '"' {
        seq!['\\', '"']
    } else if c == '\\' {
        seq!['\\', '\\']
    } else if c == '\u{8}' {
        seq!['\\', 'b']
    } else if c == '\t' {
        seq!['\\', 't']
    } else if c == '\n' {
        seq!['\\', 'n']
    } else if c == '\u{c}' {
        seq!['\\', 'f']
    } else if c == '\r' {
        seq!['\\', 'r']
    } else if (c as u32) < 0x20 {
        seq!['\\', 'u', '0', '0', hex_digit((c as u32) / 16), hex_digit((c as u32) % 16)]
    } else {
        seq![c]
    }
}

/// A string escaped character by character.
pub open spec fn escape_str(s: Seq<char>) -> Seq<char>
    decreases s.len(),
{
    if s.len() == 0 {
        Seq::empty()
    } else {
        escape_char(s[0]) + escape_str(s.drop_first())
    }
}

/// The encoded text of a tree: an object with the escaped message under
/// `msg` and the encoded children, comma-separated, under `sources`.
pub open spec fn json_of(t: TreeView) -> Seq<char>
    decreases t, 1int,
{
    "{\"msg\":\""@ + escape_str(t.msg) + "\",\"sources\":["@ + json_of_list(t.sources) + "]}"@
}

pub open spec fn json_of_list(ts: Seq<TreeView>) -> Seq<char>
    decreases ts, 0int,
{
    if ts.len() == 0 {
        Seq::empty()
    } else if ts.len() == 1 {
        json_of(ts[0])
    } else {
        json_of(ts[0]) + ","@ + json_of_list(ts.drop_first())
    }
}

/// Escaping distributes over appending one character.
pub proof fn lemma_escape_push(s: Seq<char>, c: char)
    ensures
        escape_str(s.push(c)) == escape_str(s) + escape_char(c),
    decreases s.len(),
{
    if s.len() == 0 {
        assert(s.push(c)[0] == c);
        assert(s.push(c).drop_first() =~= s);
        assert(escape_str(s.push(c)) =~= escape_str(s) + escape_char(c));
    } else {
        lemma_escape_push(s.drop_first(), c);
        assert(s.push(c)[0] == s[0]);
        assert(s.push(c).drop_first() =~= s.drop_first().push(c));
        assert(escape_str(s.push(c)) =~= escape_str(s) + escape_char(c));
    }
}

/// Encoding one more sibling appends a comma and its encoding.
pub proof fn lemma_json_list_push(ts: Seq<TreeView>, x: TreeView)
    requires
        ts.len() >= 1,
    ensures
        json_of_list(ts.push(x)) == json_of_list(ts) + ","@ + json_of(x),
    decreases ts.len(),
{
    if ts.len() == 1 {
        assert(ts.push(x)[0] == ts[0]);
        assert(ts.push(x).drop_first() =~= seq![x]);
        assert(json_of_list(seq![x]) == json_of(x));
        assert(json_of_list(ts.push(x)) =~= json_of_list(ts) + ","@ + json_of(x));
    } else {
        lemma_json_list_push(ts.drop_first(), x);
        assert(ts.push(x)[0] == ts[0]);
        assert(ts.push(x).drop_first() =~= ts.drop_first().push(x));
        assert(json_of_list(ts.push(x)) =~= json_of_list(ts) + ","@ + json_of(x));
    }
}

/// The unescaped character for a two-character escape, if the second
/// character makes one.
pub open spec fn unescape_simple(e: char) -> Option<char> {
    if e == '"' {
        Some('"')
    } else if e == '\\' {
        Some('\\')
    } else if e == '/' {
        Some('/')
    } else if e == 'b' {
        Some('\u{8}')
    } else if e == 'f' {
        Some('\u{c}')
    } else if e == 'n' {
        Some('\n')
    } else if e == 'r' {
        Some('\r')
    } else if e == 't' {
        Some('\t')
    } else {
        None
    }
}

/// Reads an encoded string up to and including its closing quote: the decoded
/// characters and the number of characters consumed. `None` on a string that
/// ends before its closing quote or holds a malformed escape.
pub open spec fn parse_string_body(s: Seq<char>) -> Option<(Seq<char>, int)>
    decreases s.len(),
{
    if s.len() == 0 {
        None
    } else if s[0] == '"' {
        Some((Seq::empty(), 1int))
    } else if s[0] == '\\' {
        if s.len() < 2 {
            None
        } else if s[1] == 'u' {
            if s.len() < 6 {
                None
            } else {
                match (hex_val(s[2]), hex_val(s[3]), hex_val(s[4]), hex_val(s[5])) {
                    (Some(h1), Some(h2), Some(h3), Some(h4)) => {
                        let v = h1 * 0x1000 + h2 * 0x100 + h3 * 0x10 + h4;
                        if v >= 0xD800 {
                            None
                        } else {
                            match parse_string_body(s.skip(6)) {
                                Some((m, n)) => Some((seq![v as char] + m, n + 6)),
                                None => None,
                            }
                        }
                    },
                    _ => None,
                }
            }
        } else {
            match unescape_simple(s[1]) {
                Some(c) => match parse_string_body(s.skip(2)) {
                    Some((m, n)) => Some((seq![c] + m, n + 2)),
                    None => None,
                },
                None => None,
            }
        }
    } else {
        match parse_string_body(s.skip(1)) {
            Some((m, n)) => Some((seq![s[0]] + m, n + 1)),
            None => None,
        }
    }
}

/// Reads one encoded tree from the start of `s`: the tree and the number of
/// characters consumed. `None` when `s` does not start with a well-formed
/// object carrying `msg` and `sources`.
pub open spec fn parse_tree(s: Seq<char>) -> Option<(TreeView, int)>
    decreases s.len(), 0int,
{
    if s.len() < 8 || s.subrange(0, 8) != "{\"msg\":\""@ {
        None
    } else {
        match parse_string_body(s.skip(8)) {
            None => None,
            Some((m, n1)) => {
                if n1 < 1 {
                    None
                } else {
                    let p = 8 + n1;
                    if s.len() < p + 12 || s.subrange(p, p + 12) != ",\"sources\":["@ {
                        None
                    } else {
                        match parse_list(s.skip(p + 12)) {
                            None => None,
                            Some((ts, n2)) => {
                                let q = p + 12 + n2;
                                if n2 < 1 || q >= s.len() || s[q] != '}' {
                                    None
                                } else {
                                    Some((TreeView { msg: m, sources: ts }, q + 1))
                                }
                            },
                        }
                    }
                }
            },
        }
    }
}

/// Reads the encoded children of a node up to and including the closing
/// bracket: the children and the number of characters consumed.
pub open spec fn parse_list(s: Seq<char>) -> Option<(Seq<TreeView>, int)>
    decreases s.len(), 1int,
{
    if s.len() == 0 {
        None
    } else if s[0] == ']' {
        Some((Seq::empty(), 1int))
    } else {
        match parse_tree(s) {
            None => None,
            Some((t, n)) => {
                if n < 1 || n >= s.len() {
                    None
                } else if s[n] == ',' {
                    match parse_list(s.skip(n + 1)) {
                        None => None,
                        Some((ts, n2)) => Some((seq![t] + ts, n + 1 + n2)),
                    }
                } else if s[n] == ']' {
                    Some((seq![t], n + 1))
                } else {
                    None
                }
            },
        }
    }
}

/// Decodes a whole text: the tree it encodes, if the text is exactly one
/// well-formed encoded tree.
pub open spec fn json_parse(s: Seq<char>) -> Option<TreeView> {
    match parse_tree(s) {
        Some((t, n)) => if n == s.len() {
            Some(t)
        } else {
            None
        },
        None => None,
    }
}

/// Reading an escaped string back gives the original characters, whatever
/// follows the closing quote.
#[verifier::rlimit(50)]
pub proof fn lemma_parse_escaped(m: Seq<char>, rest: Seq<char>)
    ensures
        parse_string_body(escape_str(m) + seq!['"'] + rest) == Some((
            m,
            escape_str(m).len() as int + 1,
        )),
    decreases m.len(),
{
    let s = escape_str(m) + seq!['"'] + rest;
    if m.len() == 0 {
        assert(s[0] == '"');
        assert(m =~= Seq::<char>::empty());
        assert(parse_string_body(s) == Some((Seq::<char>::empty(), 1int)));
    } else {
        let c = m[0];
        let e = escape_char(c);
        let s2 = escape_str(m.drop_first()) + seq!['"'] + rest;
        lemma_parse_escaped(m.drop_first(), rest);
        assert(s =~= e + s2);
        if c == '"' || c == '\\' || c == '\u{8}' || c == '\t' || c == '\n' || c == '\u{c}' || c
            == '\r' {
            assert(s.skip(2) =~= s2);
            assert(seq![c] + m.drop_first() =~= m);
        } else if (c as u32) < 0x20 {
            assert(s.skip(6) =~= s2);
            let v = ((c as u32) / 16) * 0x10 + (c as u32) % 16;
            assert(hex_val(s[4]) == Some((c as u32) / 16));
            assert(hex_val(s[5]) == Some((c as u32) % 16));
            assert(v == c as u32);
            vstd::utf8::char_u32_cast(c, c as u32);
            assert((v as char) == c);
            assert(seq![c] + m.drop_first() =~= m);
        } else {
            assert(s[0] == c && c != '"' && c != '\\');
            assert(s.skip(1) =~= s2);
            assert(seq![c] + m.drop_first() =~= m);
        }
    }
}

/// Reading an encoded tree back gives exactly that tree and consumes exactly
/// its encoding, whatever follows it.
pub proof fn lemma_parse_json(t: TreeView, rest: Seq<char>)
    ensures
        parse_tree(json_of(t) + rest) == Some((t, json_of(t).len() as int)),
    decreases t, 1int,
{
    reveal_strlit("{\"msg\":\"");
    reveal_strlit("\",\"sources\":[");
    reveal_strlit(",\"sources\":[");
    reveal_strlit("]}");
    let s = json_of(t) + rest;
    let esc = escape_str(t.msg);
    let lst = json_of_list(t.sources);
    assert(s.subrange(0, 8) =~= "{\"msg\":\""@);
    let rest1 = ",\"sources\":["@ + lst + "]}"@ + rest;
    assert(s.skip(8) =~= esc + seq!['"'] + rest1);
    lemma_parse_escaped(t.msg, rest1);
    let n1 = esc.len() as int + 1;
    let p = 8 + n1;
    assert(s.subrange(p as int, p + 12) =~= ",\"sources\":["@);
    let rest2 = seq!['}'] + rest;
    assert(s.skip(p + 12) =~= lst + seq![']'] + rest2);
    lemma_parse_json_list(t.sources, rest2);
    let n2 = lst.len() as int + 1;
    let q = p + 12 + n2;
    assert(s[q as int] == '}');
    assert((TreeView { msg: t.msg, sources: t.sources }) =~= t);
    assert(q + 1 == json_of(t).len());
}

/// Reading an encoded list of children back gives exactly those children and
/// consumes through the closing bracket.
pub proof fn lemma_parse_json_list(ts: Seq<TreeView>, rest: Seq<char>)
    ensures
        parse_list(json_of_list(ts) + seq![']'] + rest) == Some((
            ts,
            json_of_list(ts).len() as int + 1,
        )),
    decreases ts, 0int,
{
    reveal_strlit("{\"msg\":\"");
    reveal_strlit(",");
    let s = json_of_list(ts) + seq![']'] + rest;
    if ts.len() == 0 {
        assert(s[0] == ']');
        assert(ts =~= Seq::<TreeView>::empty());
    } else if ts.len() == 1 {
        lemma_parse_json(ts[0], seq![']'] + rest);
        assert(s =~= json_of(ts[0]) + (seq![']'] + rest));
        let n = json_of(ts[0]).len() as int;
        assert(s[0] == '{');
        assert(s[n] == ']');
        assert(seq![ts[0]] =~= ts);
    } else {
        let tail = ","@ + json_of_list(ts.drop_first()) + seq![']'] + rest;
        assert(s =~= json_of(ts[0]) + tail);
        lemma_parse_json(ts[0], tail);
        let n = json_of(ts[0]).len() as int;
        assert(s[0] == '{');
        assert(s[n] == ',');
        assert(s.skip(n + 1) =~= json_of_list(ts.drop_first()) + seq![']'] + rest);
        lemma_parse_json_list(ts.drop_first(), rest);
        assert(seq![ts[0]] + ts.drop_first() =~= ts);
    }
}

/// Decoding an encoded tree gives back exactly that tree.
pub proof fn lemma_codec_round_trip(t: TreeView)
    ensures
        json_parse(json_of(t)) == Some(t),
{
    lemma_parse_json(t, Seq::empty());
    assert(json_of(t) + Seq::<char>::empty() =~= json_of(t));
}

/// Decoding an encoded canonical tree and encoding the result again gives
/// the same text, byte for byte.
pub proof fn lemma_reserialize_idempotent(t: TreeView)
    ensures
        json_parse(json_of(t)) matches Some(u) && json_of(u) == json_of(t),
{
    lemma_codec_round_trip(t);
}

/// Relies on `String::push`: appends the given character to the end of the
/// string.
#[verifier::external_body]
fn push_char(out: &mut String, c: char)
    ensures
        final(out)@ == old(out)@.push(c),
{
    out.push(c);
}

fn hex_digit_exec(n: u32) -> (r: char)
    requires
        n < 16,
    ensures
        r == hex_digit(n),
{
    if n == 0 {
        '0'
    } else if n == 1 {
        '1'
    } else if n == 2 {
        '2'
    } else if n == 3 {
        '3'
    } else if n == 4 {
        '4'
    } else if n == 5 {
        '5'
    } else if n == 6 {
        '6'
    } else if n == 7 {
        '7'
    } else if n == 8 {
        '8'
    } else if n == 9 {
        '9'
    } else if n == 10 {
        'a'
    } else if n == 11 {
        'b'
    } else if n == 12 {
        'c'
    } else if n == 13 {
        'd'
    } else if n == 14 {
        'e'
    } else {
        'f'
    }
}

/// Appends the escape of one character.
fn push_escaped_char(out: &mut String, c: char)
    ensures
        final(out)@ == old(out)@ + escape_char(c),
{
    proof {
        reveal_strlit("\\\"");
        reveal_strlit("\\\\");
        reveal_strlit("\\b");
        reveal_strlit("\\t");
        reveal_strlit("\\n");
        reveal_strlit("\\f");
        reveal_strlit("\\r");
        reveal_strlit("\\u00");
    }
    if c == '"' {
        out.append("\\\"");
        proof {
            assert(out@ =~= old(out)@ + escape_char(c));
        }
    } else if c == '\\' {
        out.append("\\\\");
        proof {
            assert(out@ =~= old(out)@ + escape_char(c));
        }
    } else if c == '\u{8}' {
        out.append("\\b");
        proof {
            assert(out@ =~= old(out)@ + escape_char(c));
        }
    } else if c == '\t' {
        out.append("\\t");
        proof {
            assert(out@ =~= old(out)@ + escape_char(c));
        }
    } else if c == '\n' {
        out.append("\\n");
        proof {
            assert(out@ =~= old(out)@ + escape_char(c));
        }
    } else if c == '\u{c}' {
        out.append("\\f");
        proof {
            assert(out@ =~= old(out)@ + escape_char(c));
        }
    } else if c == '\r' {
        out.append("\\r");
        proof {
            assert(out@ =~= old(out)@ + escape_char(c));
        }
    } else if (c as u32) < 0x20 {
        out.append("\\u00");
        push_char(out, hex_digit_exec((c as u32) / 16));
        push_char(out, hex_digit_exec((c as u32) % 16));
        proof {
            assert(out@ =~= old(out)@ + escape_char(c));
        }
    } else {
        push_char(out, c);
        proof {
            assert(out@ =~= old(out)@ + escape_char(c));
        }
    }
}

/// Appends the escaped form of a whole string.
fn append_escaped(out: &mut String, s: &String)
    ensures
        final(out)@ == old(out)@ + escape_str(s@),
{
    let ghost base = old(out)@;
    let n = s.as_str().unicode_len();
    proof {
        assert(s@.take(0) =~= Seq::<char>::empty());
        assert(base + escape_str(s@.take(0)) =~= base);
    }
    for i in 0..n
        invariant
            n == s@.len(),
            out@ == base + escape_str(s@.take(i as int)),
        decreases n - i,
    {
        let c = s.as_str().get_char(i);
        push_escaped_char(out, c);
        proof {
            lemma_escape_push(s@.take(i as int), s@[i as int]);
            assert(s@.take(i + 1) =~= s@.take(i as int).push(s@[i as int]));
            assert(out@ =~= base + escape_str(s@.take(i + 1)));
        }
    }
    proof {
        assert(s@.take(n as int) =~= s@);
    }
}

/// The decoding failure: the text is not exactly one well-formed encoded
/// tree carrying `msg` and `sources`.
#[derive(Clone, Copy, Debug, PartialEq, Eq, Structural)]
pub struct DecodeError;

/// Relies on `char::from_u32`: for a value below the surrogate range it
/// returns the character with that scalar value.
#[verifier::external_body]
fn char_from_u32(v: u32) -> (r: char)
    requires
        v < 0xD800,
    ensures
        r == (v as char),
{
    char::from_u32(v).unwrap()
}

fn hex_val_exec(c: char) -> (r: Option<u32>)
    ensures
        r == hex_val(c),
{
    if c >= '0' && c <= '9' {
        Some((c as u32) - ('0' as u32))
    } else if c >= 'a' && c <= 'f' {
        Some((c as u32) - ('a' as u32) + 10)
    } else if c >= 'A' && c <= 'F' {
        Some((c as u32) - ('A' as u32) + 10)
    } else {
        None
    }
}

fn unescape_simple_exec(e: char) -> (r: Option<char>)
    ensures
        r == unescape_simple(e),
{
    if e == '"' {
        Some('"')
    } else if e == '\\' {
        Some('\\')
    } else if e == '/' {
        Some('/')
    } else if e == 'b' {
        Some('\u{8}')
    } else if e == 'f' {
        Some('\u{c}')
    } else if e == 'n' {
        Some('\n')
    } else if e == 'r' {
        Some('\r')
    } else if e == 't' {
        Some('\t')
    } else {
        None
    }
}

/// The characters of a string, in order.
fn str_to_chars(s: &str) -> (r: Vec<char>)
    ensures
        r@ == s@,
{
    let n = s.unicode_len();
    let mut v: Vec<char> = Vec::new();
    for i in 0..n
        invariant
            n == s@.len(),
            v@ =~= s@.take(i as int),
        decreases n - i,
    {
        v.push(s.get_char(i));
    }
    proof {
        assert(s@.take(n as int) =~= s@);
    }
    v
}

/// Whether the characters of `lit` stand at `pos` in `s`.
fn has_prefix(s: &Vec<char>, pos: usize, lit: &str) -> (b: bool)
    requires
        pos <= s@.len(),
    ensures
        b == (pos + lit@.len() <= s@.len() && s@.subrange(
            pos as int,
            pos as int + lit@.len() as int,
        ) == lit@),
{
    let n = lit.unicode_len();
    let sl = s.len();
    if sl - pos < n {
        return false;
    }
    for i in 0..n
        invariant
            n == lit@.len(),
            sl == s@.len(),
            pos + n <= sl,
            forall|j: int| 0 <= j < i ==> s@[pos + j] == lit@[j],
        decreases n - i,
    {
        if s[pos + i] != lit.get_char(i) {
            proof {
                let ghost sub = s@.subrange(pos as int, pos as int + lit@.len() as int);
                assert(sub[i as int] != lit@[i as int]);
            }
            return false;
        }
    }
    proof {
        assert(s@.subrange(pos as int, pos as int + lit@.len() as int) =~= lit@);
    }
    true
}

/// Reads an encoded string at `pos`, past its closing quote.
fn parse_string_at(s: &Vec<char>, pos: usize) -> (r: Result<(String, usize), DecodeError>)
    requires
        pos <= s@.len(),
    ensures
        match r {
            Ok(p) => parse_string_body(s@.skip(pos as int)) == Some((p.0@, p.1 - pos as int))
                && pos < p.1 <= s@.len(),
            Err(_) => parse_string_body(s@.skip(pos as int)) is None,
        },
    decreases s@.len() - pos,
{
    let ghost suf = s@.skip(pos as int);
    if pos == s.len() {
        return Err(DecodeError);
    }
    let c = s[pos];
    proof {
        assert(suf[0] == c);
    }
    if c == '"' {
        Ok((String::new(), pos + 1))
    } else if c == '\\' {
        if s.len() - pos < 2 {
            return Err(DecodeError);
        }
        let e = s[pos + 1];
        proof {
            assert(suf[1] == e);
        }
        if e == 'u' {
            if s.len() - pos < 6 {
                return Err(DecodeError);
            }
            proof {
                assert(suf[2] == s@[pos + 2]);
                assert(suf[3] == s@[pos + 3]);
                assert(suf[4] == s@[pos + 4]);
                assert(suf[5] == s@[pos + 5]);
            }
            let h1 = match hex_val_exec(s[pos + 2]) {
                Option::Some(h) => h,
                Option::None => {
                    return Err(DecodeError);
                },
            };
            let h2 = match hex_val_exec(s[pos + 3]) {
                Option::Some(h) => h,
                Option::None => {
                    return Err(DecodeError);
                },
            };
            let h3 = match hex_val_exec(s[pos + 4]) {
                Option::Some(h) => h,
                Option::None => {
                    return Err(DecodeError);
                },
            };
            let h4 = match hex_val_exec(s[pos + 5]) {
                Option::Some(h) => h,
                Option::None => {
                    return Err(DecodeError);
                },
            };
            let v = h1 * 0x1000 + h2 * 0x100 + h3 * 0x10 + h4;
            if v >= 0xD800 {
                return Err(DecodeError);
            }
            let c0 = char_from_u32(v);
            proof {
                assert(suf.skip(6) =~= s@.skip(pos + 6));
            }
            match parse_string_at(s, pos + 6) {
                Result::Err(err) => Err(err),
                Result::Ok((m, end)) => {
                    let mut out = String::new();
                    push_char(&mut out, c0);
                    out.append(m.as_str());
                    proof {
                        assert(out@ =~= seq![(v as char)] + m@);
                    }
                    Ok((out, end))
                },
            }
        } else {
            let c0 = match unescape_simple_exec(e) {
                Option::Some(c0) => c0,
                Option::None => {
                    return Err(DecodeError);
                },
            };
            proof {
                assert(suf.skip(2) =~= s@.skip(pos + 2));
            }
            match parse_string_at(s, pos + 2) {
                Result::Err(err) => Err(err),
                Result::Ok((m, end)) => {
                    let mut out = String::new();
                    push_char(&mut out, c0);
                    out.append(m.as_str());
                    proof {
                        assert(out@ =~= seq![c0] + m@);
                    }
                    Ok((out, end))
                },
            }
        }
    } else {
        proof {
            assert(suf.skip(1) =~= s@.skip(pos + 1));
        }
        match parse_string_at(s, pos + 1) {
            Result::Err(err) => Err(err),
            Result::Ok((m, end)) => {
                let mut out = String::new();
                push_char(&mut out, c);
                out.append(m.as_str());
                proof {
                    assert(out@ =~= seq![c] + m@);
                }
                Ok((out, end))
            },
        }
    }
}

/// Reads one encoded tree at `pos`.
fn parse_tree_at(s: &Vec<char>, pos: usize) -> (r: Result<(StringErrorTree, usize), DecodeError>)
    requires
        pos <= s@.len(),
    ensures
        match r {
            Ok(p) => parse_tree(s@.skip(pos as int)) == Some((p.0@, p.1 - pos as int)) && pos
                < p.1 <= s@.len(),
            Err(_) => parse_tree(s@.skip(pos as int)) is None,
        },
    decreases s@.len() - pos, 0int,
{
    let ghost suf = s@.skip(pos as int);
    let sl = s.len();
    proof {
        reveal_strlit("{\"msg\":\"");
        reveal_strlit(",\"sources\":[");
    }
    if !has_prefix(s, pos, "{\"msg\":\"") {
        proof {
            if suf.len() >= 8 {
                assert(suf.subrange(0, 8) =~= s@.subrange(pos as int, pos + 8));
            }
        }
        return Err(DecodeError);
    }
    proof {
        assert(suf.subrange(0, 8) =~= s@.subrange(pos as int, pos + 8));
        assert(suf.skip(8) =~= s@.skip(pos + 8));
    }
    let (msg, p1) = match parse_string_at(s, pos + 8) {
        Result::Err(err) => {
            return Err(err);
        },
        Result::Ok(p) => p,
    };
    if !has_prefix(s, p1, ",\"sources\":[") {
        proof {
            let n1 = p1 - (pos + 8int);
            let p = 8 + n1;
            if suf.len() >= p + 12 {
                assert(suf.subrange(p, p + 12) =~= s@.subrange(p1 as int, p1 + 12));
            }
        }
        return Err(DecodeError);
    }
    proof {
        let n1 = p1 - (pos + 8int);
        let p = 8 + n1;
        assert(suf.subrange(p, p + 12) =~= s@.subrange(p1 as int, p1 + 12));
        assert(suf.skip(p + 12) =~= s@.skip(p1 + 12));
    }
    let (sources, p2) = match parse_list_at(s, p1 + 12) {
        Result::Err(err) => {
            return Err(err);
        },
        Result::Ok(p) => p,
    };
    if p2 == s.len() {
        return Err(DecodeError);
    }
    proof {
        assert(suf[p2 - pos as int] == s@[p2 as int]);
    }
    if s[p2] != '}' {
        return Err(DecodeError);
    }
    let r = StringErrorTree { msg, sources };
    proof {
        assert(r@ == (TreeView { msg: r.msg@, sources: tree_views(r.sources@) }));
    }
    Ok((r, p2 + 1))
}

/// Reads the encoded children of a node at `pos`, past the closing bracket.
fn parse_list_at(s: &Vec<char>, pos: usize) -> (r: Result<
    (Vec<StringErrorTree>, usize),
    DecodeError,
>)
    requires
        pos <= s@.len(),
    ensures
        match r {
            Ok(p) => parse_list(s@.skip(pos as int)) == Some((
                tree_views(p.0@),
                p.1 - pos as int,
            )) && pos < p.1 <= s@.len(),
            Err(_) => parse_list(s@.skip(pos as int)) is None,
        },
    decreases s@.len() - pos, 1int,
{
    let ghost suf = s@.skip(pos as int);
    if pos == s.len() {
        return Err(DecodeError);
    }
    proof {
        assert(suf[0] == s@[pos as int]);
    }
    if s[pos] == ']' {
        let v: Vec<StringErrorTree> = Vec::new();
        proof {
            assert(tree_views(v@) =~= Seq::<TreeView>::empty());
        }
        return Ok((v, pos + 1));
    }
    let (t, p1) = match parse_tree_at(s, pos) {
        Result::Err(err) => {
            return Err(err);
        },
        Result::Ok(p) => p,
    };
    if p1 == s.len() {
        return Err(DecodeError);
    }
    proof {
        assert(suf[p1 - pos as int] == s@[p1 as int]);
    }
    if s[p1] == ',' {
        proof {
            assert(suf.skip(p1 + 1 - pos as int) =~= s@.skip(p1 + 1));
        }
        match parse_list_at(s, p1 + 1) {
            Result::Err(err) => Err(err),
            Result::Ok((ts, p2)) => {
                let ghost tail = ts@;
                proof {
                    lemma_tree_views_index(tail);
                }
                let mut ts = ts;
                ts.insert(0, t);
                proof {
                    lemma_tree_views_index(ts@);
                    assert(ts@.len() == tail.len() + 1);
                    assert(ts@[0] == t);
                    assert(forall|j: int| 1 <= j < ts@.len() ==> ts@[j] == tail[j - 1]);
                    assert(tree_views(ts@) =~= seq![t@] + tree_views(tail));
                }
                Ok((ts, p2))
            },
        }
    } else if s[p1] == ']' {
        let mut v: Vec<StringErrorTree> = Vec::new();
        v.push(t);
        proof {
            lemma_tree_views_index(v@);
            assert(tree_views(v@) =~= seq![t@]);
        }
        Ok((v, p1 + 1))
    } else {
        Err(DecodeError)
    }
}

/// Decodes a whole text into a canonical tree. The text must be exactly one
/// well-formed encoded tree; anything else is a decode failure.
pub fn decode_tree(s: &str) -> (r: Result<StringErrorTree, DecodeError>)
    ensures
        match r {
            Ok(t) => json_parse(s@) == Some(t@),
            Err(_) => json_parse(s@) is None,
        },
{
    let chars = str_to_chars(s);
    proof {
        assert(chars@.skip(0) =~= s@);
    }
    match parse_tree_at(&chars, 0) {
        Result::Err(err) => Err(err),
        Result::Ok((t, end)) => {
            if end == chars.len() {
                Ok(t)
            } else {
                Err(DecodeError)
            }
        },
    }
}

/// Encodes a canonical tree to its wire text.
pub fn encode_tree(t: &StringErrorTree) -> (r: String)
    ensures
        r@ == json_of(t@),
    decreases *t,
{
    let mut out = String::from_str("{\"msg\":\"");
    append_escaped(&mut out, &t.msg);
    out.append("\",\"sources\":[");
    let n = t.sources.len();
    proof {
        lemma_tree_views_index(t.sources@);
    }
    if n > 0 {
        let first = encode_tree(&t.sources[0]);
        out.append(first.as_str());
        proof {
            assert(t@.sources.take(1) =~= seq![t@.sources[0]]);
            assert(json_of_list(t@.sources.take(1)) == json_of(t@.sources[0]));
        }
        for i in 1..n
            invariant
                n == t.sources.len(),
                tree_views(t.sources@).len() == n,
                forall|j: int|
                    0 <= j < n ==> tree_views(t.sources@)[j] == tree_view(t.sources@[j]),
                out@ == "{\"msg\":\""@ + escape_str(t@.msg) + "\",\"sources\":["@ + json_of_list(
                    t@.sources.take(i as int),
                ),
            decreases n - i,
        {
            out.append(",");
            let next = encode_tree(&t.sources[i]);
            out.append(next.as_str());
            proof {
                lemma_json_list_push(t@.sources.take(i as int), t@.sources[i as int]);
                assert(t@.sources.take(i + 1) =~= t@.sources.take(i as int).push(
                    t@.sources[i as int],
                ));
                assert(out@ =~= "{\"msg\":\""@ + escape_str(t@.msg) + "\",\"sources\":["@
                    + json_of_list(t@.sources.take(i + 1)));
            }
        }
    }
    proof {
        assert(t@.sources.take(n as int) =~= t@.sources);
        if n == 0 {
            assert(json_of_list(t@.sources) =~= Seq::<char>::empty());
        }
    }
    out.append("]}");
    proof {
        assert(out@ =~= json_of(t@));
    }
    out
}

impl StringErrorTree {
    /// Encodes this tree to its wire text.
    pub fn to_json(&self) -> (r: String)
        ensures
            r@ == json_of(self@),
    {
        encode_tree(self)
    }

    /// Decodes a wire text into a tree. The text must be exactly one
    /// well-formed encoded tree.
    pub fn from_json(s: &str) -> (r: Result<StringErrorTree, DecodeError>)
        ensures
            match r {
                Ok(t) => json_parse(s@) == Some(t@),
                Err(_) => json_parse(s@) is None,
            },
    {
        decode_tree(s)
    }
}

} // verus!
