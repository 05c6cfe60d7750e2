//! The contact-form payload and its canonical textual encoding.
//!
//! A payload is three strings: name, contact and message. Its canonical
//! encoding is a JSON object with exactly those three fields, in that order,
//! with no whitespace, where each string escapes `"`, `\` and the control
//! characters and nothing else. `json_of` states the encoding; `spec_parse_payload`
//! states which texts decode, and to what.
//!
//! The decoder deliberately recognizes the canonical encoding alone, not the
//! wider JSON shape (reordered fields, whitespace, extra fields, other escape
//! spellings); anything else falls back to the forwarder's generic wrapper,
//! verbatim. This is a design choice, not a shortcut. Structured plaintext
//! reaches the decoder only out of notes encrypted to the holder's own key, so
//! every such plaintext the system can ever see was produced by `to_json_string`
//! and is canonical; a lenient decoder would add no reachable behaviour. What
//! it would do is admit many spellings of one payload, and with that the
//! decode-is-the-inverse-of-encode theorems below (`lemma_parse_canonical`,
//! `lemma_payload_canonical`) would weaken from equalities to one-way
//! implications. Text that is JSON but not canonical is still delivered — under
//! the generic wrapper, unaltered.
use vstd::prelude::*;

verus! {

/// A contact-form submission: arbitrary caller-supplied strings.
pub struct ContactMeRequest {
    pub name: String,
    pub contact: String,
    pub message: String,
}

/// The hexadecimal digit character for `n`, lower case.
pub open spec fn hex_digit(n: nat) -> char {
    if n == 0 { '0' } else if n == 1 { '1' } else if n == 2 { '2' } else if n == 3 { '3' }
    else if n == 4 { '4' } else if n == 5 { '5' } else if n == 6 { '6' } else if n == 7 { '7' }
    else if n == 8 { '8' } else if n == 9 { '9' } else if n == 10 { 'a' } else if n == 11 { 'b' }
    else if n == 12 { 'c' } else if n == 13 { 'd' } else if n == 14 { 'e' } else { 'f' }
}

/// Control characters with a short escape of their own.
pub open spec fn has_short_escape(c: char) -> bool {
    c == '\u{8}' || c == '\u{c}' || c == '\n' || c == '\r' || c == '\t'
}

/// The escape of one character in a canonically encoded string.
pub open spec fn esc_char(c: char) -> Seq<char> {
    if c == '"' {
        seq!['\\', '"']
    } else if c == '\\' {
        seq!['\\', '\\']
    } else if c == '\u{8}' {
        seq!['\\', 'b']
    } else if c == '\u{c}' {
        seq!['\\', 'f']
    } else if c == '\n' {
        seq!['\\', 'n']
    } else if c == '\r' {
        seq!['\\', 'r']
    } else if c == '\t' {
        seq!['\\', 't']
    } else if (c as u32) < 0x20 {
        seq!['\\', 'u', '0', '0', hex_digit((c as u32 / 16) as nat), hex_digit((c as u32 % 16) as nat)]
    } else {
        seq![c]
    }
}

/// The canonical escape of a whole string.
pub open spec fn json_escape(s: Seq<char>) -> Seq<char>
    decreases s.len(),
{
    if s.len() == 0 {
        Seq::empty()
    } else {
        esc_char(s[0]) + json_escape(s.skip(1))
    }
}

/// The canonical encoding of a payload with the given name, contact and message.
pub open spec fn json_of(name: Seq<char>, contact: Seq<char>, message: Seq<char>) -> Seq<char> {
    "{\"name\":\""@ + json_escape(name) + "\",\"contact\":\""@ + json_escape(contact)
        + "\",\"message\":\""@ + json_escape(message) + "\"}"@
}

/// Escaping distributes over concatenation.
pub proof fn lemma_json_escape_concat(a: Seq<char>, b: Seq<char>)
    ensures
        json_escape(a + b) == json_escape(a) + json_escape(b),
    decreases a.len(),
{
    if a.len() == 0 {
        assert(a + b =~= b);
        assert(json_escape(a) + json_escape(b) =~= json_escape(b));
    } else {
        assert((a + b).skip(1) =~= a.skip(1) + b);
        lemma_json_escape_concat(a.skip(1), b);
        assert(esc_char((a + b)[0]) + (json_escape(a.skip(1)) + json_escape(b))
            =~= (esc_char(a[0]) + json_escape(a.skip(1))) + json_escape(b));
    }
}

proof fn lemma_json_escape_snoc(s: Seq<char>, i: int)
    requires
        0 <= i < s.len(),
    ensures
        json_escape(s.take(i + 1)) == json_escape(s.take(i)) + esc_char(s[i]),
{
    assert(s.take(i + 1) =~= s.take(i) + seq![s[i]]);
    lemma_json_escape_concat(s.take(i), seq![s[i]]);
    assert(seq![s[i]].skip(1) =~= Seq::<char>::empty());
    assert(json_escape(seq![s[i]]) =~= esc_char(s[i]) + json_escape(Seq::<char>::empty()));
    assert(esc_char(s[i]) + Seq::<char>::empty() =~= esc_char(s[i]));
}

/// The hexadecimal digit character for `d`, lower case.
fn hex_digit_char(d: u8) -> (c: char)
    requires
        d < 16,
    ensures
        c == hex_digit(d as nat),
{
    if d == 0 { '0' } else if d == 1 { '1' } else if d == 2 { '2' } else if d == 3 { '3' }
    else if d == 4 { '4' } else if d == 5 { '5' } else if d == 6 { '6' } else if d == 7 { '7' }
    else if d == 8 { '8' } else if d == 9 { '9' } else if d == 10 { 'a' } else if d == 11 { 'b' }
    else if d == 12 { 'c' } else if d == 13 { 'd' } else if d == 14 { 'e' } else { 'f' }
}

/// Appends one character to a string.
///
/// Relies on `String::push`: it appends exactly the given character.
#[verifier::external_body]
fn push_char(s: &mut String, c: char)
    ensures
        final(s)@ == old(s)@.push(c),
{
    s.push(c);
}

/// Appends the canonical escape of `c` to `out`.
fn push_escaped(out: &mut String, c: char)
    ensures
        final(out)@ == old(out)@ + esc_char(c),
{
    if c == '"' {
        push_char(out, '\\');
        push_char(out, '"');
        assert(final(out)@ =~= old(out)@ + esc_char(c));
    } else if c == '\\' {
        push_char(out, '\\');
        push_char(out, '\\');
        assert(final(out)@ =~= old(out)@ + esc_char(c));
    } else if c == '\u{8}' {
        push_char(out, '\\');
        push_char(out, 'b');
        assert(final(out)@ =~= old(out)@ + esc_char(c));
    } else if c == '\u{c}' {
        push_char(out, '\\');
        push_char(out, 'f');
        assert(final(out)@ =~= old(out)@ + esc_char(c));
    } else if c == '\n' {
        push_char(out, '\\');
        push_char(out, 'n');
        assert(final(out)@ =~= old(out)@ + esc_char(c));
    } else if c == '\r' {
        push_char(out, '\\');
        push_char(out, 'r');
        assert(final(out)@ =~= old(out)@ + esc_char(c));
    } else if c == '\t' {
        push_char(out, '\\');
        push_char(out, 't');
        assert(final(out)@ =~= old(out)@ + esc_char(c));
    } else if (c as u32) < 0x20 {
        let v: u32 = c as u32;
        push_char(out, '\\');
        push_char(out, 'u');
        push_char(out, '0');
        push_char(out, '0');
        push_char(out, hex_digit_char((v / 16) as u8));
        push_char(out, hex_digit_char((v % 16) as u8));
        assert(final(out)@ =~= old(out)@ + esc_char(c));
    } else {
        push_char(out, c);
        assert(final(out)@ =~= old(out)@ + esc_char(c));
    }
}

/// Appends the canonical escape of `s` to `out`.
fn append_escaped(out: &mut String, s: &str)
    ensures
        final(out)@ == old(out)@ + json_escape(s@),
{
    let len = s.unicode_len();
    let mut i: usize = 0;
    while i < len
        invariant
            len == s@.len(),
            i <= len,
            out@ == old(out)@ + json_escape(s@.take(i as int)),
        decreases len - i,
    {
        let c = s.get_char(i);
        push_escaped(out, c);
        proof {
            lemma_json_escape_snoc(s@, i as int);
        }
        i = i + 1;
    }
    proof {
        assert(s@.take(len as int) =~= s@);
    }
}

/// The character a short escape `\x` stands for, where there is one.
pub open spec fn simple_escape_code(c: char) -> Option<char> {
    if c == '"' {
        Some('"')
    } else if c == '\\' {
        Some('\\')
    } else if c == 'b' {
        Some('\u{8}')
    } else if c == 'f' {
        Some('\u{c}')
    } else if c == 'n' {
        Some('\n')
    } else if c == 'r' {
        Some('\r')
    } else if c == 't' {
        Some('\t')
    } else {
        None
    }
}

/// A lower-case hexadecimal digit character.
pub open spec fn is_hex_lo_digit(c: char) -> bool {
    (('0' as u32) <= (c as u32) && (c as u32) <= ('9' as u32)) || (('a' as u32) <= (c as u32)
        && (c as u32) <= ('f' as u32))
}

/// The value of a lower-case hexadecimal digit character.
pub open spec fn hex_val(c: char) -> int {
    if ('0' as u32) <= (c as u32) && (c as u32) <= ('9' as u32) {
        (c as u32) - ('0' as u32)
    } else {
        (c as u32) - ('a' as u32) + 10
    }
}

/// A `\u00XX` escape is canonical only for a control character without a short escape.
pub open spec fn is_canonical_u_escape(v: int) -> bool {
    0 <= v < 0x20 && v != 8 && v != 9 && v != 10 && v != 12 && v != 13
}

/// Decodes a canonically escaped string up to and including its closing quote.
/// Returns the decoded content and what follows the quote; `None` where the text
/// is not a canonically escaped string.
pub open spec fn spec_parse_str(s: Seq<char>) -> Option<(Seq<char>, Seq<char>)>
    decreases s.len(),
{
    if s.len() == 0 {
        None
    } else if s[0] == '"' {
        Some((Seq::empty(), s.skip(1)))
    } else if s[0] == '\\' {
        if s.len() >= 2 && simple_escape_code(s[1]) is Some {
            match spec_parse_str(s.skip(2)) {
                Some(tr) => Some((seq![simple_escape_code(s[1]).unwrap()] + tr.0, tr.1)),
                None => None,
            }
        } else if s.len() >= 6 && s[1] == 'u' && s[2] == '0' && s[3] == '0' && (s[4] == '0' || s[4]
            == '1') && is_hex_lo_digit(s[5]) && is_canonical_u_escape(
            hex_val(s[4]) * 16 + hex_val(s[5]),
        ) {
            match spec_parse_str(s.skip(6)) {
                Some(tr) => Some(
                    (seq![(((hex_val(s[4]) * 16 + hex_val(s[5])) as u8) as char)] + tr.0, tr.1),
                ),
                None => None,
            }
        } else {
            None
        }
    } else if (s[0] as u32) < 0x20 {
        None
    } else {
        match spec_parse_str(s.skip(1)) {
            Some(tr) => Some((seq![s[0]] + tr.0, tr.1)),
            None => None,
        }
    }
}

/// Decodes the canonical payload encoding: the three field values, where the
/// whole text is a canonical encoding, and `None` otherwise.
pub open spec fn spec_parse_payload(s: Seq<char>) -> Option<(Seq<char>, Seq<char>, Seq<char>)> {
    let l1 = "{\"name\":\""@;
    let l2 = ",\"contact\":\""@;
    let l3 = ",\"message\":\""@;
    if l1.len() <= s.len() && s.take(l1.len() as int) == l1 {
        match spec_parse_str(s.skip(l1.len() as int)) {
            Some(nr) => if l2.len() <= nr.1.len() && nr.1.take(l2.len() as int) == l2 {
                match spec_parse_str(nr.1.skip(l2.len() as int)) {
                    Some(cr) => if l3.len() <= cr.1.len() && cr.1.take(l3.len() as int) == l3 {
                        match spec_parse_str(cr.1.skip(l3.len() as int)) {
                            Some(mr) => if mr.1 == "}"@ {
                                Some((nr.0, cr.0, mr.0))
                            } else {
                                None
                            },
                            None => None,
                        }
                    } else {
                        None
                    },
                    None => None,
                }
            } else {
                None
            },
            None => None,
        }
    } else {
        None
    }
}

proof fn lemma_hex_digit(n: nat)
    requires
        n < 16,
    ensures
        is_hex_lo_digit(hex_digit(n)),
        hex_val(hex_digit(n)) == n,
{
}

/// Decoding is a left inverse of escaping: a canonically escaped string followed
/// by its closing quote decodes to the original content, whatever follows.
pub proof fn lemma_escape_parses(x: Seq<char>, rest: Seq<char>)
    ensures
        spec_parse_str(json_escape(x) + seq!['"'] + rest) == Some((x, rest)),
    decreases x.len(),
{
    let s = json_escape(x) + seq!['"'] + rest;
    if x.len() == 0 {
        assert(json_escape(x) =~= Seq::<char>::empty());
        assert(s =~= seq!['"'] + rest);
        assert(s[0] == '"');
        assert(s.skip(1) =~= rest);
        assert(x =~= Seq::<char>::empty());
    } else {
        let c = x[0];
        let e = esc_char(c);
        let s1 = json_escape(x.skip(1)) + seq!['"'] + rest;
        lemma_escape_parses(x.skip(1), rest);
        assert(s =~= e + s1);
        assert(seq![c] + x.skip(1) =~= x);
        if c == '"' || c == '\\' || has_short_escape(c) {
            assert(e.len() == 2 && e[0] == '\\' && simple_escape_code(e[1]) == Some(c));
            assert(s.len() >= 2 && s[0] == '\\' && s[1] == e[1]);
            assert(s.skip(2) =~= s1);
            assert(spec_parse_str(s) == Some((seq![c] + x.skip(1), rest)));
        } else if (c as u32) < 0x20 {
            let v = c as u32;
            assert(v / 16 == 0 || v / 16 == 1) by (nonlinear_arith)
                requires v < 0x20;
            assert(v % 16 < 16) by (nonlinear_arith);
            lemma_hex_digit((v / 16) as nat);
            lemma_hex_digit((v % 16) as nat);
            let h1 = hex_digit((v / 16) as nat);
            let h2 = hex_digit((v % 16) as nat);
            assert(e =~= seq!['\\', 'u', '0', '0', h1, h2]);
            assert(s.len() >= 6);
            assert(s[0] == '\\' && s[1] == 'u' && s[2] == '0' && s[3] == '0' && s[4] == h1 && s[5]
                == h2);
            assert(s.skip(6) =~= s1);
            assert(hex_val(h1) * 16 + hex_val(h2) == v) by (nonlinear_arith)
                requires
                    hex_val(h1) == v / 16,
                    hex_val(h2) == v % 16,
                    v < 0x20,
            ;
            let d = ((v as u8) as char);
            assert(d as u32 == v);
            vstd::utf8::char_u32_cast(d, v);
            vstd::utf8::char_u32_cast(c, v);
            assert(d == c);
            assert(c != '\u{8}' && c != '\u{c}' && c != '\n' && c != '\r' && c != '\t');
            vstd::utf8::char_u32_cast('\u{8}', '\u{8}' as u32);
            vstd::utf8::char_u32_cast('\u{c}', '\u{c}' as u32);
            vstd::utf8::char_u32_cast('\n', '\n' as u32);
            vstd::utf8::char_u32_cast('\r', '\r' as u32);
            vstd::utf8::char_u32_cast('\t', '\t' as u32);
            assert(v != 8 && v != 9 && v != 10 && v != 12 && v != 13);
            assert(is_canonical_u_escape(v as int));
            assert(spec_parse_str(s) == Some((seq![c] + x.skip(1), rest)));
        } else {
            assert(e =~= seq![c]);
            assert(s[0] == c);
            assert(s.skip(1) =~= s1);
            assert(spec_parse_str(s) == Some((seq![c] + x.skip(1), rest)));
        }
    }
}

/// Decoding is a left inverse of the canonical payload encoding.
pub proof fn lemma_parse_canonical(name: Seq<char>, contact: Seq<char>, message: Seq<char>)
    ensures
        spec_parse_payload(json_of(name, contact, message)) == Some((name, contact, message)),
{
    let s = json_of(name, contact, message);
    let l1 = "{\"name\":\""@;
    let l2 = ",\"contact\":\""@;
    let l3 = ",\"message\":\""@;
    reveal_strlit("{\"name\":\"");
    reveal_strlit(",\"contact\":\"");
    reveal_strlit(",\"message\":\"");
    reveal_strlit("\",\"contact\":\"");
    reveal_strlit("\",\"message\":\"");
    reveal_strlit("\"}");
    reveal_strlit("}");
    let rest3 = "}"@;
    let rest2 = l3 + json_escape(message) + seq!['"'] + rest3;
    let rest1 = l2 + json_escape(contact) + seq!['"'] + rest2;
    assert(s =~= l1 + (json_escape(name) + seq!['"'] + rest1));
    assert(l1.len() <= s.len() && s.take(l1.len() as int) =~= l1);
    assert(s.skip(l1.len() as int) =~= json_escape(name) + seq!['"'] + rest1);
    lemma_escape_parses(name, rest1);
    assert(rest1.take(l2.len() as int) =~= l2);
    assert(rest1.skip(l2.len() as int) =~= json_escape(contact) + seq!['"'] + rest2);
    lemma_escape_parses(contact, rest2);
    assert(rest2.take(l3.len() as int) =~= l3);
    assert(rest2.skip(l3.len() as int) =~= json_escape(message) + seq!['"'] + rest3);
    lemma_escape_parses(message, rest3);
}

proof fn lemma_hex_digit_inverse(c: char)
    requires
        is_hex_lo_digit(c),
    ensures
        0 <= hex_val(c) < 16,
        hex_digit(hex_val(c) as nat) == c,
{
    vstd::utf8::char_u32_cast(c, c as u32);
    vstd::utf8::char_u32_cast('0', '0' as u32);
    vstd::utf8::char_u32_cast('1', '1' as u32);
    vstd::utf8::char_u32_cast('2', '2' as u32);
    vstd::utf8::char_u32_cast('3', '3' as u32);
    vstd::utf8::char_u32_cast('4', '4' as u32);
    vstd::utf8::char_u32_cast('5', '5' as u32);
    vstd::utf8::char_u32_cast('6', '6' as u32);
    vstd::utf8::char_u32_cast('7', '7' as u32);
    vstd::utf8::char_u32_cast('8', '8' as u32);
    vstd::utf8::char_u32_cast('9', '9' as u32);
    vstd::utf8::char_u32_cast('a', 'a' as u32);
    vstd::utf8::char_u32_cast('b', 'b' as u32);
    vstd::utf8::char_u32_cast('c', 'c' as u32);
    vstd::utf8::char_u32_cast('d', 'd' as u32);
    vstd::utf8::char_u32_cast('e', 'e' as u32);
    vstd::utf8::char_u32_cast('f', 'f' as u32);
}

/// Decoding accepts only canonical text: what decodes to some content is that
/// content's canonical escape, closing quote and remainder included.
pub proof fn lemma_parse_str_canonical(s: Seq<char>, x: Seq<char>, rest: Seq<char>)
    requires
        spec_parse_str(s) == Some((x, rest)),
    ensures
        s == json_escape(x) + seq!['"'] + rest,
    decreases s.len(),
{
    if s[0] == '"' {
        assert(x =~= Seq::<char>::empty());
        assert(json_escape(x) =~= Seq::<char>::empty());
        assert(s =~= seq!['"'] + s.skip(1));
        assert(json_escape(x) + seq!['"'] + rest =~= s);
    } else if s[0] == '\\' {
        if s.len() >= 2 && simple_escape_code(s[1]) is Some {
            let d = simple_escape_code(s[1]).unwrap();
            let tr = spec_parse_str(s.skip(2)).unwrap();
            lemma_parse_str_canonical(s.skip(2), tr.0, tr.1);
            assert(esc_char(d) =~= seq!['\\', s[1]]);
            assert(x =~= seq![d] + tr.0);
            assert(x.skip(1) =~= tr.0);
            assert(json_escape(x) == esc_char(d) + json_escape(tr.0));
            assert(s =~= s.take(2) + s.skip(2));
            assert(s.take(2) =~= seq!['\\', s[1]]);
            assert(json_escape(x) + seq!['"'] + rest =~= s);
        } else {
            let v = hex_val(s[4]) * 16 + hex_val(s[5]);
            let d = ((v as u8) as char);
            let tr = spec_parse_str(s.skip(6)).unwrap();
            lemma_parse_str_canonical(s.skip(6), tr.0, tr.1);
            assert(d as u32 == v);
            vstd::utf8::char_u32_cast(d, v as u32);
            vstd::utf8::char_u32_cast('"', '"' as u32);
            vstd::utf8::char_u32_cast('\\', '\\' as u32);
            vstd::utf8::char_u32_cast('\u{8}', '\u{8}' as u32);
            vstd::utf8::char_u32_cast('\u{c}', '\u{c}' as u32);
            vstd::utf8::char_u32_cast('\n', '\n' as u32);
            vstd::utf8::char_u32_cast('\r', '\r' as u32);
            vstd::utf8::char_u32_cast('\t', '\t' as u32);
            assert(d != '"' && d != '\\' && !has_short_escape(d));
            lemma_hex_digit_inverse(s[5]);
            assert(v / 16 == hex_val(s[4]) && v % 16 == hex_val(s[5])) by (nonlinear_arith)
                requires
                    0 <= hex_val(s[5]) < 16,
                    hex_val(s[4]) == 0 || hex_val(s[4]) == 1,
                    v == hex_val(s[4]) * 16 + hex_val(s[5]),
            ;
            assert(hex_digit((d as u32 / 16) as nat) == s[4]);
            assert(hex_digit((d as u32 % 16) as nat) == s[5]);
            assert(esc_char(d) =~= seq!['\\', 'u', '0', '0', s[4], s[5]]);
            assert(x =~= seq![d] + tr.0);
            assert(x.skip(1) =~= tr.0);
            assert(json_escape(x) == esc_char(d) + json_escape(tr.0));
            assert(s =~= s.take(6) + s.skip(6));
            assert(s.take(6) =~= seq!['\\', 'u', '0', '0', s[4], s[5]]);
            assert(json_escape(x) + seq!['"'] + rest =~= s);
        }
    } else {
        let tr = spec_parse_str(s.skip(1)).unwrap();
        lemma_parse_str_canonical(s.skip(1), tr.0, tr.1);
        assert(esc_char(s[0]) =~= seq![s[0]]);
        assert(x =~= seq![s[0]] + tr.0);
        assert(x.skip(1) =~= tr.0);
        assert(json_escape(x) == esc_char(s[0]) + json_escape(tr.0));
        assert(s =~= s.take(1) + s.skip(1));
        assert(s.take(1) =~= seq![s[0]]);
        assert(json_escape(x) + seq!['"'] + rest =~= s);
    }
}

/// The decoder accepts only canonical payload text: what decodes to three
/// fields is exactly their canonical encoding. With `lemma_parse_canonical`,
/// decoding succeeds exactly on the canonical encodings, one payload each.
pub proof fn lemma_payload_canonical(s: Seq<char>, name: Seq<char>, contact: Seq<char>, message: Seq<char>)
    requires
        spec_parse_payload(s) == Some((name, contact, message)),
    ensures
        s == json_of(name, contact, message),
{
    let l1 = "{\"name\":\""@;
    let l2 = ",\"contact\":\""@;
    let l3 = ",\"message\":\""@;
    reveal_strlit("{\"name\":\"");
    reveal_strlit(",\"contact\":\"");
    reveal_strlit(",\"message\":\"");
    reveal_strlit("\",\"contact\":\"");
    reveal_strlit("\",\"message\":\"");
    reveal_strlit("\"}");
    reveal_strlit("}");
    let nr = spec_parse_str(s.skip(l1.len() as int)).unwrap();
    let cr = spec_parse_str(nr.1.skip(l2.len() as int)).unwrap();
    let mr = spec_parse_str(cr.1.skip(l3.len() as int)).unwrap();
    lemma_parse_str_canonical(s.skip(l1.len() as int), nr.0, nr.1);
    lemma_parse_str_canonical(nr.1.skip(l2.len() as int), cr.0, cr.1);
    lemma_parse_str_canonical(cr.1.skip(l3.len() as int), mr.0, mr.1);
    assert(cr.1 =~= cr.1.take(l3.len() as int) + cr.1.skip(l3.len() as int));
    assert(nr.1 =~= nr.1.take(l2.len() as int) + nr.1.skip(l2.len() as int));
    assert(s =~= s.take(l1.len() as int) + s.skip(l1.len() as int));
    assert(s =~= json_of(name, contact, message));
}

/// Prepends already-decoded content to the outcome of decoding the rest.
pub open spec fn prepend_parsed(p: Seq<char>, r: Option<(Seq<char>, Seq<char>)>) -> Option<
    (Seq<char>, Seq<char>),
> {
    match r {
        Some(tr) => Some((p + tr.0, tr.1)),
        None => None,
    }
}

/// True exactly when `lit` occurs in `s` at character position `i`.
fn match_lit(s: &str, i: usize, lit: &str) -> (r: bool)
    requires
        i <= s@.len(),
    ensures
        r <==> (i + lit@.len() <= s@.len() && s@.skip(i as int).take(lit@.len() as int) == lit@),
{
    let slen = s.unicode_len();
    let llen = lit.unicode_len();
    if llen > slen - i {
        return false;
    }
    let mut k: usize = 0;
    while k < llen
        invariant
            i + llen <= slen,
            slen == s@.len(),
            llen == lit@.len(),
            k <= llen,
            forall|t: int| 0 <= t < k ==> s@[i + t] == lit@[t],
        decreases llen - k,
    {
        if s.get_char(i + k) != lit.get_char(k) {
            proof {
                assert(s@.skip(i as int).take(llen as int)[k as int] == s@[i + k]);
                assert(s@.skip(i as int).take(llen as int) != lit@);
            }
            return false;
        }
        k = k + 1;
    }
    proof {
        assert(s@.skip(i as int).take(llen as int) =~= lit@);
    }
    true
}

/// The value of a lower-case hexadecimal digit character, where it is one.
fn hex_val_of(c: char) -> (r: Option<u8>)
    ensures
        match r {
            Some(v) => is_hex_lo_digit(c) && v as int == hex_val(c) && v < 16,
            None => !is_hex_lo_digit(c),
        },
{
    let u = c as u32;
    if 0x30 <= u && u <= 0x39 {
        Some((u - 0x30) as u8)
    } else if 0x61 <= u && u <= 0x66 {
        Some((u - 0x61 + 10) as u8)
    } else {
        None
    }
}

proof fn lemma_prepend_assoc(a: Seq<char>, b: Seq<char>, r: Option<(Seq<char>, Seq<char>)>)
    ensures
        prepend_parsed(a, prepend_parsed(b, r)) == prepend_parsed(a + b, r),
{
    match r {
        Some(tr) => {
            assert(a + (b + tr.0) =~= (a + b) + tr.0);
        },
        None => {},
    }
}

/// Decodes a canonically escaped string starting at character position `i`,
/// up to and including its closing quote: exactly `spec_parse_str` of the suffix.
fn parse_string_at(s: &str, i: usize) -> (r: Option<(String, usize)>)
    requires
        i <= s@.len(),
    ensures
        match r {
            Some(tj) => i <= tj.1 <= s@.len() && spec_parse_str(s@.skip(i as int)) == Some(
                (tj.0@, s@.skip(tj.1 as int)),
            ),
            None => spec_parse_str(s@.skip(i as int)) is None,
        },
{
    let len = s.unicode_len();
    let mut j: usize = i;
    let mut out = String::new();
    proof {
        if spec_parse_str(s@.skip(i as int)) is Some {
            let tr = spec_parse_str(s@.skip(i as int)).unwrap();
            assert(Seq::<char>::empty() + tr.0 =~= tr.0);
        }
    }
    while j < len
        invariant
            i <= j <= len,
            len == s@.len(),
            spec_parse_str(s@.skip(i as int)) == prepend_parsed(
                out@,
                spec_parse_str(s@.skip(j as int)),
            ),
        decreases len - j,
    {
        let ghost suf = s@.skip(j as int);
        proof {
            assert(suf.len() == len - j);
            assert(suf[0] == s@[j as int]);
        }
        let c = s.get_char(j);
        if c == '"' {
            proof {
                assert(suf.skip(1) =~= s@.skip(j + 1));
                assert(spec_parse_str(suf) == Some((Seq::<char>::empty(), s@.skip(j + 1))));
                assert(out@ + Seq::<char>::empty() =~= out@);
            }
            return Some((out, j + 1));
        } else if c == '\\' {
            if len - j < 2 {
                proof {
                    assert(spec_parse_str(suf) is None);
                }
                return None;
            }
            let c2 = s.get_char(j + 1);
            proof {
                assert(suf.len() >= 2 && suf[1] == s@[j + 1]);
            }
            let decoded: Option<char> = if c2 == '"' {
                Some('"')
            } else if c2 == '\\' {
                Some('\\')
            } else if c2 == 'b' {
                Some('\u{8}')
            } else if c2 == 'f' {
                Some('\u{c}')
            } else if c2 == 'n' {
                Some('\n')
            } else if c2 == 'r' {
                Some('\r')
            } else if c2 == 't' {
                Some('\t')
            } else {
                None
            };
            proof {
                assert(decoded == simple_escape_code(c2));
            }
            match decoded {
                Some(d) => {
                    let ghost old_out = out@;
                    push_char(&mut out, d);
                    proof {
                        assert(suf.skip(2) =~= s@.skip(j + 2));
                        assert(spec_parse_str(suf) == prepend_parsed(
                            seq![d],
                            spec_parse_str(s@.skip(j + 2)),
                        ));
                        assert(out@ =~= old_out + seq![d]);
                        lemma_prepend_assoc(old_out, seq![d], spec_parse_str(s@.skip(j + 2)));
                    }
                    j = j + 2;
                },
                None => {
                    if c2 != 'u' {
                        proof {
                            assert(spec_parse_str(suf) is None);
                        }
                        return None;
                    }
                    if len - j < 6 {
                        proof {
                            assert(suf.len() < 6);
                            assert(spec_parse_str(suf) is None);
                        }
                        return None;
                    }
                    let c3 = s.get_char(j + 2);
                    let c4 = s.get_char(j + 3);
                    let c5 = s.get_char(j + 4);
                    let c6 = s.get_char(j + 5);
                    proof {
                        assert(suf.len() >= 6 && suf[2] == s@[j + 2] && suf[3] == s@[j + 3]
                            && suf[4] == s@[j + 4] && suf[5] == s@[j + 5]);
                    }
                    if c3 != '0' || c4 != '0' || !(c5 == '0' || c5 == '1') {
                        proof {
                            assert(spec_parse_str(suf) is None);
                        }
                        return None;
                    }
                    let v6 = match hex_val_of(c6) {
                        Some(v) => v,
                        None => {
                            proof {
                                assert(spec_parse_str(suf) is None);
                            }
                            return None;
                        },
                    };
                    let v5 = if c5 == '0' {
                        0u8
                    } else {
                        1u8
                    };
                    proof {
                        assert(v5 as int == hex_val(c5));
                    }
                    let v: u8 = v5 * 16 + v6;
                    proof {
                        assert(v as int == hex_val(c5) * 16 + hex_val(c6));
                    }
                    if v == 8 || v == 9 || v == 10 || v == 12 || v == 13 {
                        proof {
                            assert(!is_canonical_u_escape(hex_val(suf[4]) * 16 + hex_val(suf[5])));
                            assert(spec_parse_str(suf) is None);
                        }
                        return None;
                    }
                    let d = v as char;
                    let ghost old_out = out@;
                    push_char(&mut out, d);
                    proof {
                        assert(suf.skip(6) =~= s@.skip(j + 6));
                        assert(spec_parse_str(suf) == prepend_parsed(
                            seq![d],
                            spec_parse_str(s@.skip(j + 6)),
                        ));
                        assert(out@ =~= old_out + seq![d]);
                        lemma_prepend_assoc(old_out, seq![d], spec_parse_str(s@.skip(j + 6)));
                    }
                    j = j + 6;
                },
            }
        } else if (c as u32) < 0x20 {
            proof {
                assert(spec_parse_str(suf) is None);
            }
            return None;
        } else {
            let ghost old_out = out@;
            push_char(&mut out, c);
            proof {
                assert(suf.skip(1) =~= s@.skip(j + 1));
                assert(spec_parse_str(suf) == prepend_parsed(
                    seq![c],
                    spec_parse_str(s@.skip(j + 1)),
                ));
                assert(out@ =~= old_out + seq![c]);
                lemma_prepend_assoc(old_out, seq![c], spec_parse_str(s@.skip(j + 1)));
            }
            j = j + 1;
        }
    }
    proof {
        assert(s@.skip(j as int).len() == 0);
        assert(spec_parse_str(s@.skip(j as int)) is None);
    }
    None
}

/// Decodes a canonical payload encoding: exactly `spec_parse_payload` of the text.
pub fn parse_contact_me(s: &str) -> (r: Option<ContactMeRequest>)
    ensures
        match r {
            Some(p) => spec_parse_payload(s@) == Some((p.name@, p.contact@, p.message@)),
            None => spec_parse_payload(s@) is None,
        },
{
    let l1 = "{\"name\":\"";
    let l2 = ",\"contact\":\"";
    let l3 = ",\"message\":\"";
    let len = s.unicode_len();
    if !match_lit(s, 0, l1) {
        proof {
            assert(s@.skip(0) =~= s@);
            assert(s@.take(l1@.len() as int) =~= s@.skip(0).take(l1@.len() as int));
        }
        return None;
    }
    proof {
        assert(s@.skip(0) =~= s@);
        assert(s@.take(l1@.len() as int) =~= s@.skip(0).take(l1@.len() as int));
    }
    let i1 = l1.unicode_len();
    let (name, j1) = match parse_string_at(s, i1) {
        Some(t) => t,
        None => {
            return None;
        },
    };
    let ghost r1 = s@.skip(j1 as int);
    if !match_lit(s, j1, l2) {
        return None;
    }
    proof {
        assert(r1.take(l2@.len() as int) =~= s@.skip(j1 as int).take(l2@.len() as int));
        assert(r1.skip(l2@.len() as int) =~= s@.skip(j1 + l2@.len()));
    }
    let i2 = j1 + l2.unicode_len();
    let (contact, j2) = match parse_string_at(s, i2) {
        Some(t) => t,
        None => {
            return None;
        },
    };
    let ghost r2 = s@.skip(j2 as int);
    if !match_lit(s, j2, l3) {
        return None;
    }
    proof {
        assert(r2.take(l3@.len() as int) =~= s@.skip(j2 as int).take(l3@.len() as int));
        assert(r2.skip(l3@.len() as int) =~= s@.skip(j2 + l3@.len()));
    }
    let i3 = j2 + l3.unicode_len();
    let (message, j3) = match parse_string_at(s, i3) {
        Some(t) => t,
        None => {
            return None;
        },
    };
    let ghost r3 = s@.skip(j3 as int);
    if len - j3 != 1 || s.get_char(j3) != '}' {
        proof {
            reveal_strlit("}");
            assert(("}"@).len() == 1);
            if len - j3 == 1 {
                assert(r3.len() == 1);
                assert(r3[0] == s@[j3 as int]);
            }
            assert(r3 != "}"@);
        }
        return None;
    }
    proof {
        reveal_strlit("}");
        assert(r3.len() == 1);
        assert(r3[0] == s@[j3 as int]);
        assert(r3 =~= "}"@);
    }
    Some(ContactMeRequest { name, contact, message })
}

impl ContactMeRequest {
    /// The canonical textual encoding of this payload: exactly `json_of` of its fields.
    pub fn to_json_string(&self) -> (r: String)
        ensures
            r@ == json_of(self.name@, self.contact@, self.message@),
    {
        let mut out = String::new();
        out.append("{\"name\":\"");
        append_escaped(&mut out, self.name.as_str());
        out.append("\",\"contact\":\"");
        append_escaped(&mut out, self.contact.as_str());
        out.append("\",\"message\":\"");
        append_escaped(&mut out, self.message.as_str());
        out.append("\"}");
        proof {
            assert(out@ =~= json_of(self.name@, self.contact@, self.message@));
        }
        out
    }
}

} // verus!
