//! The canonical JSON representation of playlists, written and read by the
//! library itself, with a proved round trip: parsing a rendered playlist
//! yields exactly the playlist that was rendered.

use vstd::prelude::*;
use crate::ids::{
    spec_hex_digit,
    spec_hex_value,
    is_hex_char,
    lemma_hex_digit_value,
    hex_digit,
    hex_value,
};

verus! {

/// How one character is written inside a JSON string: quotes and backslashes
/// are escaped, control characters take the `\u00XX` form, everything else
/// stands as it is.
pub open spec fn spec_escape_char(c: char) -> Seq<char> {
    if c == '"' {
        seq!['\\', '"']
    } else if c == '\\' {
        seq!['\\', '\\']
    } else if (c as u32) < 32 {
        seq!['\\', 'u', '0', '0', spec_hex_digit((c as u32 / 16) as int), spec_hex_digit(
            (c as u32 % 16) as int,
        )]
    } else {
        seq![c]
    }
}

/// The escaped form of a whole string body.
pub open spec fn spec_escape(s: Seq<char>) -> Seq<char>
    decreases s.len(),
{
    if s.len() == 0 {
        Seq::empty()
    } else {
        spec_escape_char(s[0]) + spec_escape(s.skip(1))
    }
}

/// Escaping one more character at the end appends its escaped form.
pub proof fn lemma_escape_snoc(s: Seq<char>, c: char)
    ensures
        spec_escape(s.push(c)) == spec_escape(s) + spec_escape_char(c),
    decreases s.len(),
{
    if s.len() == 0 {
        assert(s.push(c)[0] == c);
        assert(s.push(c).skip(1) =~= Seq::<char>::empty());
        assert(spec_escape(Seq::<char>::empty()) == Seq::<char>::empty());
        assert(spec_escape(s.push(c)) == spec_escape_char(c) + Seq::<char>::empty());
        assert(spec_escape_char(c) + Seq::<char>::empty() =~= spec_escape_char(c));
        assert(Seq::<char>::empty() + spec_escape_char(c) =~= spec_escape_char(c));
    } else {
        assert(s.push(c)[0] == s[0]);
        assert(s.push(c).skip(1) =~= s.skip(1).push(c));
        lemma_escape_snoc(s.skip(1), c);
        assert(spec_escape_char(s[0]) + (spec_escape(s.skip(1)) + spec_escape_char(c))
            =~= (spec_escape_char(s[0]) + spec_escape(s.skip(1))) + spec_escape_char(c));
    }
}

/// Appends the escaped form of `c`.
fn push_escaped_char(out: &mut Vec<char>, c: char)
    ensures
        final(out)@ == old(out)@ + spec_escape_char(c),
{
    if c == '"' {
        out.push('\\');
        out.push('"');
        proof {
            assert(out@ =~= old(out)@ + spec_escape_char(c));
        }
    } else if c == '\\' {
        out.push('\\');
        out.push('\\');
        proof {
            assert(out@ =~= old(out)@ + spec_escape_char(c));
        }
    } else {
        let code = c as u32;
        if code < 32 {
            out.push('\\');
            out.push('u');
            out.push('0');
            out.push('0');
            out.push(hex_digit((code / 16) as u8));
            out.push(hex_digit((code % 16) as u8));
            proof {
                assert(out@ =~= old(out)@ + spec_escape_char(c));
            }
        } else {
            out.push(c);
            proof {
                assert(out@ =~= old(out)@ + spec_escape_char(c));
            }
        }
    }
}

/// A string value: a quote, the escaped body, a quote.
pub open spec fn spec_render_string(v: Seq<char>) -> Seq<char> {
    seq!['"'] + spec_escape(v) + seq!['"']
}

/// Appends the JSON rendering of a string value.
pub fn push_json_string(out: &mut Vec<char>, s: &str)
    ensures
        final(out)@ == old(out)@ + spec_render_string(s@),
{
    out.push('"');
    let n = s.unicode_len();
    let mut i: usize = 0;
    while i < n
        invariant
            i <= n,
            n == s@.len(),
            out@ == old(out)@ + seq!['"'] + spec_escape(s@.take(i as int)),
        decreases n - i,
    {
        push_escaped_char(out, s.get_char(i));
        proof {
            assert(s@.take((i + 1) as int) =~= s@.take(i as int).push(s@[i as int]));
            lemma_escape_snoc(s@.take(i as int), s@[i as int]);
            assert((old(out)@ + seq!['"'] + spec_escape(s@.take(i as int)))
                + spec_escape_char(s@[i as int]) =~= old(out)@ + seq!['"'] + spec_escape(
                s@.take((i + 1) as int),
            ));
        }
        i += 1;
    }
    out.push('"');
    proof {
        assert(s@.take(n as int) =~= s@);
        assert(out@ =~= old(out)@ + spec_render_string(s@));
    }
}

/// What a two-character escape denotes, for the escapes the format accepts.
pub open spec fn spec_unescape_two(e: char) -> Option<char> {
    if e == '"' {
        Some('"')
    } else if e == '\\' {
        Some('\\')
    } else if e == '/' {
        Some('/')
    } else if e == 'n' {
        Some('\n')
    } else if e == 't' {
        Some('\t')
    } else if e == 'r' {
        Some('\r')
    } else if e == 'b' {
        Some('\u{8}')
    } else if e == 'f' {
        Some('\u{c}')
    } else {
        None
    }
}

/// Reads a string body up to and including its closing quote.  Escapes are
/// the two-character ones and `\u00XX`.
pub open spec fn spec_parse_str_body(s: Seq<char>) -> Option<(Seq<char>, Seq<char>)>
    decreases s.len(),
{
    if s.len() == 0 {
        None
    } else if s[0] == '"' {
        Some((Seq::empty(), s.skip(1)))
    } else if s[0] == '\\' {
        if s.len() < 2 {
            None
        } else if s[1] == 'u' {
            if s.len() >= 6 && s[2] == '0' && s[3] == '0' && is_hex_char(s[4]) && is_hex_char(
                s[5],
            ) {
                let code = spec_hex_value(s[4]) * 16 + spec_hex_value(s[5]);
                match spec_parse_str_body(s.skip(6)) {
                    None => None,
                    Some((v, r)) => Some((seq![(code as u8) as char] + v, r)),
                }
            } else {
                None
            }
        } else {
            match spec_unescape_two(s[1]) {
                None => None,
                Some(c) => match spec_parse_str_body(s.skip(2)) {
                    None => None,
                    Some((v, r)) => Some((seq![c] + v, r)),
                },
            }
        }
    } else {
        match spec_parse_str_body(s.skip(1)) {
            None => None,
            Some((v, r)) => Some((seq![s[0]] + v, r)),
        }
    }
}

/// Parsing an escaped body followed by a quote recovers the body.
pub proof fn lemma_parse_str_body_render(v: Seq<char>, rest: Seq<char>)
    ensures
        spec_parse_str_body(spec_escape(v) + (seq!['"'] + rest)) == Some((v, rest)),
    decreases v.len(),
{
    if v.len() == 0 {
        assert(spec_escape(v) + (seq!['"'] + rest) =~= seq!['"'] + rest);
        let s = seq!['"'] + rest;
        assert(s[0] == '"');
        assert(s.skip(1) =~= rest);
    } else {
        let c = v[0];
        let v1 = v.skip(1);
        let tail = spec_escape(v1) + (seq!['"'] + rest);
        let s = spec_escape(v) + (seq!['"'] + rest);
        lemma_parse_str_body_render(v1, rest);
        assert(v =~= seq![c] + v1);
        if c == '"' {
            assert(s =~= seq!['\\', '"'] + tail);
            assert(s[0] == '\\' && s[1] == '"');
            assert(s.skip(2) =~= tail);
        } else if c == '\\' {
            assert(s =~= seq!['\\', '\\'] + tail);
            assert(s.skip(2) =~= tail);
        } else if (c as u32) < 32 {
            let u = c as u32;
            let h1 = spec_hex_digit((u / 16) as int);
            let h2 = spec_hex_digit((u % 16) as int);
            assert(s =~= seq!['\\', 'u', '0', '0', h1, h2] + tail);
            lemma_hex_digit_value((u / 16) as int);
            lemma_hex_digit_value((u % 16) as int);
            assert(s.skip(6) =~= tail);
            let code = spec_hex_value(s[4]) * 16 + spec_hex_value(s[5]);
            assert(code == (u / 16) * 16 + (u % 16));
            assert(code == u);
            let c2 = (code as u8) as char;
            assert(c2 as u32 == u);
            vstd::utf8::char_u32_cast(c, u);
            vstd::utf8::char_u32_cast(c2, u);
            assert(c2 == c);
            assert(s[1] == 'u');
        } else {
            assert(s =~= seq![c] + tail);
            assert(s.skip(1) =~= tail);
            assert(s[0] != '"' && s[0] != '\\');
        }
    }
}


/// What a two-character escape denotes.
fn unescape_two(e: char) -> (r: Option<char>)
    ensures
        r == spec_unescape_two(e),
{
    if e == '"' {
        Some('"')
    } else if e == '\\' {
        Some('\\')
    } else if e == '/' {
        Some('/')
    } else if e == 'n' {
        Some('\n')
    } else if e == 't' {
        Some('\t')
    } else if e == 'r' {
        Some('\r')
    } else if e == 'b' {
        Some('\u{8}')
    } else if e == 'f' {
        Some('\u{c}')
    } else {
        None
    }
}

/// Reads a string body at position `i`, up to and including the closing
/// quote.
fn parse_str_body(s: &Vec<char>, i: usize) -> (r: Option<(Vec<char>, usize)>)
    requires
        i <= s@.len(),
    ensures
        ({
            let m = spec_parse_str_body(s@.skip(i as int));
            match r {
                None => m is None,
                Some((v, j)) => {
                    &&& i <= j <= s@.len()
                    &&& m == Some((v@, s@.skip(j as int)))
                },
            }
        }),
    decreases s@.len() - i,
{
    if i >= s.len() {
        return None;
    }
    let c = s[i];
    proof {
        assert(s@.skip(i as int)[0] == s@[i as int]);
    }
    if c == '"' {
        proof {
            crate::ids::lemma_skip_skip(s@, i as int, 1);
        }
        let v: Vec<char> = Vec::new();
        Some((v, i + 1))
    } else if c == '\\' {
        if i + 1 >= s.len() {
            return None;
        }
        let e = s[i + 1];
        proof {
            assert(s@.skip(i as int)[1] == s@[i + 1]);
        }
        if e == 'u' {
            if s.len() - i < 6 {
                return None;
            }
            let d2 = s[i + 2];
            let d3 = s[i + 3];
            let h4 = s[i + 4];
            let h5 = s[i + 5];
            proof {
                assert(s@.skip(i as int)[2] == s@[i + 2]);
                assert(s@.skip(i as int)[3] == s@[i + 3]);
                assert(s@.skip(i as int)[4] == s@[i + 4]);
                assert(s@.skip(i as int)[5] == s@[i + 5]);
            }
            if d2 == '0' && d3 == '0' {
                let v4 = hex_value(h4);
                let v5 = hex_value(h5);
                if v4 < 16 && v5 < 16 {
                    let code: u8 = v4 * 16 + v5;
                    let ch = code as char;
                    proof {
                        crate::ids::lemma_skip_skip(s@, i as int, 6);
                    }
                    match parse_str_body(s, i + 6) {
                        None => None,
                        Some((v, j)) => {
                            let mut v2 = v;
                            v2.insert(0, ch);
                            proof {
                                assert(v2@ =~= seq![ch] + v@);
                            }
                            Some((v2, j))
                        },
                    }
                } else {
                    None
                }
            } else {
                None
            }
        } else {
            match unescape_two(e) {
                None => None,
                Some(ch) => {
                    proof {
                        crate::ids::lemma_skip_skip(s@, i as int, 2);
                    }
                    match parse_str_body(s, i + 2) {
                        None => None,
                        Some((v, j)) => {
                            let mut v2 = v;
                            v2.insert(0, ch);
                            proof {
                                assert(v2@ =~= seq![ch] + v@);
                            }
                            Some((v2, j))
                        },
                    }
                },
            }
        }
    } else {
        proof {
            crate::ids::lemma_skip_skip(s@, i as int, 1);
        }
        match parse_str_body(s, i + 1) {
            None => None,
            Some((v, j)) => {
                let mut v2 = v;
                v2.insert(0, c);
                proof {
                    assert(v2@ =~= seq![c] + v@);
                }
                Some((v2, j))
            },
        }
    }
}

/// Reads a whole string value: an opening quote, then the body.
pub open spec fn spec_parse_string(s: Seq<char>) -> Option<(Seq<char>, Seq<char>)> {
    if s.len() > 0 && s[0] == '"' {
        spec_parse_str_body(s.skip(1))
    } else {
        None
    }
}

/// Parsing a rendered string value recovers it.
pub proof fn lemma_parse_string_render(v: Seq<char>, rest: Seq<char>)
    ensures
        spec_parse_string(spec_render_string(v) + rest) == Some((v, rest)),
{
    let s = spec_render_string(v) + rest;
    assert(s[0] == '"');
    assert(s.skip(1) =~= spec_escape(v) + (seq!['"'] + rest));
    lemma_parse_str_body_render(v, rest);
}

/// Reads a string value at position `i`.
fn parse_string_chars(s: &Vec<char>, i: usize) -> (r: Option<(Vec<char>, usize)>)
    requires
        i <= s@.len(),
    ensures
        ({
            let m = spec_parse_string(s@.skip(i as int));
            match r {
                None => m is None,
                Some((v, j)) => {
                    &&& i <= j <= s@.len()
                    &&& m == Some((v@, s@.skip(j as int)))
                },
            }
        }),
{
    if i < s.len() && s[i] == '"' {
        proof {
            assert(s@.skip(i as int)[0] == s@[i as int]);
            crate::ids::lemma_skip_skip(s@, i as int, 1);
        }
        parse_str_body(s, i + 1)
    } else {
        if i < s.len() {
            proof {
                assert(s@.skip(i as int)[0] == s@[i as int]);
            }
        }
        None
    }
}

/// An identifier value: the hyphenated form between quotes.
pub open spec fn spec_render_uuid_str(u: u128) -> Seq<char> {
    seq!['"'] + crate::ids::spec_uuid_seq(u) + seq!['"']
}

/// Reads a quoted hyphenated identifier.
pub open spec fn spec_parse_uuid_str(s: Seq<char>) -> Option<(u128, Seq<char>)> {
    if s.len() > 0 && s[0] == '"' {
        match crate::ids::spec_parse_uuid(s.skip(1)) {
            Some((u, r)) => if r.len() > 0 && r[0] == '"' {
                Some((u, r.skip(1)))
            } else {
                None
            },
            None => None,
        }
    } else {
        None
    }
}

/// Parsing a rendered identifier value recovers it.
pub proof fn lemma_parse_uuid_str_render(u: u128, rest: Seq<char>)
    ensures
        spec_parse_uuid_str(spec_render_uuid_str(u) + rest) == Some((u, rest)),
{
    let s = spec_render_uuid_str(u) + rest;
    assert(s[0] == '"');
    assert(s.skip(1) =~= crate::ids::spec_uuid_seq(u) + (seq!['"'] + rest));
    crate::ids::lemma_uuid_seq_roundtrip(u, seq!['"'] + rest);
    let mid = seq!['"'] + rest;
    assert(mid[0] == '"');
    assert(mid.skip(1) =~= rest);
}

/// Appends a quoted identifier.
fn push_uuid_str(out: &mut Vec<char>, id: crate::ids::Uuid)
    ensures
        final(out)@ == old(out)@ + spec_render_uuid_str(id.value),
{
    out.push('"');
    let mut v = id.hyphenated_chars();
    out.append(&mut v);
    out.push('"');
    proof {
        assert(out@ =~= old(out)@ + spec_render_uuid_str(id.value));
    }
}

/// Reads a quoted identifier at position `i`.
fn parse_uuid_str_chars(s: &Vec<char>, i: usize) -> (r: Option<(crate::ids::Uuid, usize)>)
    requires
        i <= s@.len(),
    ensures
        ({
            let m = spec_parse_uuid_str(s@.skip(i as int));
            match r {
                None => m is None,
                Some((id, j)) => {
                    &&& i <= j <= s@.len()
                    &&& m == Some((id.value, s@.skip(j as int)))
                },
            }
        }),
{
    if i < s.len() && s[i] == '"' {
        proof {
            assert(s@.skip(i as int)[0] == s@[i as int]);
            crate::ids::lemma_skip_skip(s@, i as int, 1);
        }
        match crate::ids::Uuid::parse_chars(s, i + 1) {
            None => None,
            Some((id, j)) => {
                if j < s.len() && s[j] == '"' {
                    proof {
                        assert(s@.skip(j as int)[0] == s@[j as int]);
                        crate::ids::lemma_skip_skip(s@, j as int, 1);
                    }
                    Some((id, j + 1))
                } else {
                    if j < s.len() {
                        proof {
                            assert(s@.skip(j as int)[0] == s@[j as int]);
                        }
                    }
                    None
                }
            },
        }
    } else {
        if i < s.len() {
            proof {
                assert(s@.skip(i as int)[0] == s@[i as int]);
            }
        }
        None
    }
}

/// An optional identifier: `null` or a quoted identifier.
pub open spec fn spec_render_opt_uuid(o: Option<crate::ids::Uuid>) -> Seq<char> {
    match o {
        None => "null"@,
        Some(id) => spec_render_uuid_str(id.value),
    }
}

/// Reads `null` or a quoted identifier.
pub open spec fn spec_parse_opt_uuid(s: Seq<char>) -> Option<
    (Option<crate::ids::Uuid>, Seq<char>),
> {
    if s.len() > 0 && s[0] == 'n' {
        match crate::text::spec_expect(s, "null"@) {
            Some(r) => Some((None, r)),
            None => None,
        }
    } else {
        match spec_parse_uuid_str(s) {
            Some((u, r)) => Some((Some(crate::ids::Uuid { value: u }), r)),
            None => None,
        }
    }
}

/// Parsing a rendered optional identifier recovers it.
pub proof fn lemma_parse_opt_uuid_render(o: Option<crate::ids::Uuid>, rest: Seq<char>)
    ensures
        spec_parse_opt_uuid(spec_render_opt_uuid(o) + rest) == Some((o, rest)),
{
    reveal_strlit("null");
    let s = spec_render_opt_uuid(o) + rest;
    match o {
        None => {
            assert(s[0] == 'n');
            crate::text::lemma_expect_concat("null"@, rest);
        },
        Some(id) => {
            assert(s[0] == '"');
            lemma_parse_uuid_str_render(id.value, rest);
        },
    }
}

/// Appends an optional identifier.
fn push_opt_uuid(out: &mut Vec<char>, o: &Option<crate::ids::Uuid>)
    ensures
        final(out)@ == old(out)@ + spec_render_opt_uuid(*o),
{
    match o {
        Option::None => crate::text::push_lit(out, "null"),
        Option::Some(id) => push_uuid_str(out, *id),
    }
}

/// Reads an optional identifier at position `i`.
fn parse_opt_uuid_chars(s: &Vec<char>, i: usize) -> (r: Option<(Option<crate::ids::Uuid>, usize)>)
    requires
        i <= s@.len(),
    ensures
        ({
            let m = spec_parse_opt_uuid(s@.skip(i as int));
            match r {
                None => m is None,
                Some((o, j)) => {
                    &&& i <= j <= s@.len()
                    &&& m == Some((o, s@.skip(j as int)))
                },
            }
        }),
{
    if i < s.len() && s[i] == 'n' {
        proof {
            assert(s@.skip(i as int)[0] == s@[i as int]);
        }
        match crate::text::expect_lit(s, i, "null") {
            Some(j) => Some((None, j)),
            None => None,
        }
    } else {
        if i < s.len() {
            proof {
                assert(s@.skip(i as int)[0] == s@[i as int]);
            }
        }
        match parse_uuid_str_chars(s, i) {
            None => None,
            Some((id, j)) => Some((Some(id), j)),
        }
    }
}

/// An optional string: `null` or a string value.
pub open spec fn spec_render_opt_string(o: Option<Seq<char>>) -> Seq<char> {
    match o {
        None => "null"@,
        Some(v) => spec_render_string(v),
    }
}

/// Reads `null` or a string value.
pub open spec fn spec_parse_opt_string(s: Seq<char>) -> Option<(Option<Seq<char>>, Seq<char>)> {
    if s.len() > 0 && s[0] == 'n' {
        match crate::text::spec_expect(s, "null"@) {
            Some(r) => Some((None, r)),
            None => None,
        }
    } else {
        match spec_parse_string(s) {
            Some((v, r)) => Some((Some(v), r)),
            None => None,
        }
    }
}

/// Parsing a rendered optional string recovers it.
pub proof fn lemma_parse_opt_string_render(o: Option<Seq<char>>, rest: Seq<char>)
    ensures
        spec_parse_opt_string(spec_render_opt_string(o) + rest) == Some((o, rest)),
{
    reveal_strlit("null");
    let s = spec_render_opt_string(o) + rest;
    match o {
        None => {
            assert(s[0] == 'n');
            crate::text::lemma_expect_concat("null"@, rest);
        },
        Some(v) => {
            assert(s[0] == '"');
            lemma_parse_string_render(v, rest);
        },
    }
}

/// Appends an optional string value.
fn push_opt_string(out: &mut Vec<char>, o: &Option<String>)
    ensures
        final(out)@ == old(out)@ + spec_render_opt_string(crate::types::opt_str_view(*o)),
{
    match o {
        Option::None => crate::text::push_lit(out, "null"),
        Option::Some(v) => push_json_string(out, v.as_str()),
    }
}

/// Reads an optional string at position `i`.
fn parse_opt_string_chars(s: &Vec<char>, i: usize) -> (r: Option<(Option<Vec<char>>, usize)>)
    requires
        i <= s@.len(),
    ensures
        ({
            let m = spec_parse_opt_string(s@.skip(i as int));
            match r {
                None => m is None,
                Some((o, j)) => {
                    &&& i <= j <= s@.len()
                    &&& match o {
                        None => m == Some((None::<Seq<char>>, s@.skip(j as int))),
                        Some(v) => m == Some((Some(v@), s@.skip(j as int))),
                    }
                },
            }
        }),
{
    if i < s.len() && s[i] == 'n' {
        proof {
            assert(s@.skip(i as int)[0] == s@[i as int]);
        }
        match crate::text::expect_lit(s, i, "null") {
            Some(j) => Some((None, j)),
            None => None,
        }
    } else {
        if i < s.len() {
            proof {
                assert(s@.skip(i as int)[0] == s@[i as int]);
            }
        }
        match parse_string_chars(s, i) {
            None => None,
            Some((v, j)) => Some((Some(v), j)),
        }
    }
}

/// One track as a JSON object with the three identifier fields.
pub open spec fn spec_render_track(t: crate::types::Track) -> Seq<char> {
    "{\"recordingid\":"@ + spec_render_uuid_str(t.recording_id.value) + ",\"releaseid\":"@
        + spec_render_opt_uuid(t.release_id) + ",\"releasetrackid\":"@ + spec_render_opt_uuid(
        t.release_track_id,
    ) + "}"@
}

/// Reads one track object.
pub open spec fn spec_parse_track(s: Seq<char>) -> Option<(crate::types::Track, Seq<char>)> {
    match crate::text::spec_expect(s, "{\"recordingid\":"@) {
        None => None,
        Some(r1) => match spec_parse_uuid_str(r1) {
            None => None,
            Some((u, r2)) => match crate::text::spec_expect(r2, ",\"releaseid\":"@) {
                None => None,
                Some(r3) => match spec_parse_opt_uuid(r3) {
                    None => None,
                    Some((rel, r4)) => match crate::text::spec_expect(
                        r4,
                        ",\"releasetrackid\":"@,
                    ) {
                        None => None,
                        Some(r5) => match spec_parse_opt_uuid(r5) {
                            None => None,
                            Some((rt, r6)) => match crate::text::spec_expect(r6, "}"@) {
                                None => None,
                                Some(r7) => Some(
                                    (
                                        crate::types::Track {
                                            recording_id: crate::ids::Uuid { value: u },
                                            release_id: rel,
                                            release_track_id: rt,
                                        },
                                        r7,
                                    ),
                                ),
                            },
                        },
                    },
                },
            },
        },
    }
}

/// Parsing a rendered track recovers it.
#[verifier::rlimit(100)]
pub proof fn lemma_parse_track_render(t: crate::types::Track, rest: Seq<char>)
    ensures
        spec_parse_track(spec_render_track(t) + rest) == Some((t, rest)),
{
    let t7 = "}"@ + rest;
    let t6 = spec_render_opt_uuid(t.release_track_id) + t7;
    let t5 = ",\"releasetrackid\":"@ + t6;
    let t4 = spec_render_opt_uuid(t.release_id) + t5;
    let t3 = ",\"releaseid\":"@ + t4;
    let t2 = spec_render_uuid_str(t.recording_id.value) + t3;
    let t1 = "{\"recordingid\":"@ + t2;
    assert(spec_render_track(t) + rest =~= t1);
    crate::text::lemma_expect_concat("{\"recordingid\":"@, t2);
    lemma_parse_uuid_str_render(t.recording_id.value, t3);
    crate::text::lemma_expect_concat(",\"releaseid\":"@, t4);
    lemma_parse_opt_uuid_render(t.release_id, t5);
    crate::text::lemma_expect_concat(",\"releasetrackid\":"@, t6);
    lemma_parse_opt_uuid_render(t.release_track_id, t7);
    crate::text::lemma_expect_concat("}"@, rest);
}

/// Appends one track object.
fn push_track(out: &mut Vec<char>, t: &crate::types::Track)
    ensures
        final(out)@ == old(out)@ + spec_render_track(*t),
{
    crate::text::push_lit(out, "{\"recordingid\":");
    push_uuid_str(out, t.recording_id);
    crate::text::push_lit(out, ",\"releaseid\":");
    push_opt_uuid(out, &t.release_id);
    crate::text::push_lit(out, ",\"releasetrackid\":");
    push_opt_uuid(out, &t.release_track_id);
    crate::text::push_lit(out, "}");
    proof {
        assert(out@ =~= old(out)@ + spec_render_track(*t));
    }
}

/// Reads one track object at position `i`.
fn parse_track_chars(s: &Vec<char>, i: usize) -> (r: Option<(crate::types::Track, usize)>)
    requires
        i <= s@.len(),
    ensures
        ({
            let m = spec_parse_track(s@.skip(i as int));
            match r {
                None => m is None,
                Some((t, j)) => {
                    &&& i <= j <= s@.len()
                    &&& m == Some((t, s@.skip(j as int)))
                },
            }
        }),
{
    let j1 = match crate::text::expect_lit(s, i, "{\"recordingid\":") {
        None => {
            return None;
        },
        Some(j) => j,
    };
    let (rec, j2) = match parse_uuid_str_chars(s, j1) {
        None => {
            return None;
        },
        Some(x) => x,
    };
    let j3 = match crate::text::expect_lit(s, j2, ",\"releaseid\":") {
        None => {
            return None;
        },
        Some(j) => j,
    };
    let (rel, j4) = match parse_opt_uuid_chars(s, j3) {
        None => {
            return None;
        },
        Some(x) => x,
    };
    let j5 = match crate::text::expect_lit(s, j4, ",\"releasetrackid\":") {
        None => {
            return None;
        },
        Some(j) => j,
    };
    let (rt, j6) = match parse_opt_uuid_chars(s, j5) {
        None => {
            return None;
        },
        Some(x) => x,
    };
    let j7 = match crate::text::expect_lit(s, j6, "}") {
        None => {
            return None;
        },
        Some(j) => j,
    };
    Some(
        (
            crate::types::Track {
                recording_id: rec,
                release_id: rel,
                release_track_id: rt,
            },
            j7,
        ),
    )
}

/// The tracks after the first: `,` then a track, repeated, then `]`.
pub open spec fn spec_render_tracks_rest(ts: Seq<crate::types::Track>) -> Seq<char>
    decreases ts.len(),
{
    if ts.len() == 0 {
        seq![']']
    } else {
        seq![','] + spec_render_track(ts[0]) + spec_render_tracks_rest(ts.skip(1))
    }
}

/// The whole tracklist after its opening bracket, closing bracket included.
pub open spec fn spec_render_tracks(ts: Seq<crate::types::Track>) -> Seq<char> {
    if ts.len() == 0 {
        seq![']']
    } else {
        spec_render_track(ts[0]) + spec_render_tracks_rest(ts.skip(1))
    }
}

/// Reads the tracks after the first, up to and including the closing
/// bracket.
pub open spec fn spec_parse_tracks_rest(s: Seq<char>) -> Option<
    (Seq<crate::types::Track>, Seq<char>),
>
    decreases s.len(),
{
    if s.len() == 0 {
        None
    } else if s[0] == ']' {
        Some((Seq::empty(), s.skip(1)))
    } else if s[0] == ',' {
        match spec_parse_track(s.skip(1)) {
            None => None,
            Some((t, r)) => if r.len() < s.len() {
                match spec_parse_tracks_rest(r) {
                    None => None,
                    Some((ts, r2)) => Some((seq![t] + ts, r2)),
                }
            } else {
                None
            },
        }
    } else {
        None
    }
}

/// Reads a whole tracklist after its opening bracket.
pub open spec fn spec_parse_tracks(s: Seq<char>) -> Option<(Seq<crate::types::Track>, Seq<char>)> {
    if s.len() == 0 {
        None
    } else if s[0] == ']' {
        Some((Seq::empty(), s.skip(1)))
    } else {
        match spec_parse_track(s) {
            None => None,
            Some((t, r)) => if r.len() < s.len() {
                match spec_parse_tracks_rest(r) {
                    None => None,
                    Some((ts, r2)) => Some((seq![t] + ts, r2)),
                }
            } else {
                None
            },
        }
    }
}

/// Parsing rendered remaining tracks recovers them.
#[verifier::rlimit(100)]
pub proof fn lemma_parse_tracks_rest_render(ts: Seq<crate::types::Track>, rest: Seq<char>)
    ensures
        spec_parse_tracks_rest(spec_render_tracks_rest(ts) + rest) == Some((ts, rest)),
    decreases ts.len(),
{
    let s = spec_render_tracks_rest(ts) + rest;
    if ts.len() == 0 {
        assert(s =~= seq![']'] + rest);
        assert(s[0] == ']');
        assert(s.skip(1) =~= rest);
    } else {
        let tail2 = spec_render_tracks_rest(ts.skip(1)) + rest;
        assert(s =~= seq![','] + (spec_render_track(ts[0]) + tail2));
        assert(s[0] == ',');
        assert(s.skip(1) =~= spec_render_track(ts[0]) + tail2);
        lemma_parse_track_render(ts[0], tail2);
        assert(tail2.len() < s.len());
        lemma_parse_tracks_rest_render(ts.skip(1), rest);
        assert(seq![ts[0]] + ts.skip(1) =~= ts);
    }
}

/// Parsing a rendered tracklist recovers it.
#[verifier::rlimit(100)]
pub proof fn lemma_parse_tracks_render(ts: Seq<crate::types::Track>, rest: Seq<char>)
    ensures
        spec_parse_tracks(spec_render_tracks(ts) + rest) == Some((ts, rest)),
{
    let s = spec_render_tracks(ts) + rest;
    if ts.len() == 0 {
        assert(s =~= seq![']'] + rest);
        assert(s[0] == ']');
        assert(s.skip(1) =~= rest);
    } else {
        reveal_strlit("{\"recordingid\":");
        let tail2 = spec_render_tracks_rest(ts.skip(1)) + rest;
        assert(s =~= spec_render_track(ts[0]) + tail2);
        assert(spec_render_track(ts[0])[0] == '{');
        assert(s[0] == '{');
        lemma_parse_track_render(ts[0], tail2);
        assert(tail2.len() < s.len());
        lemma_parse_tracks_rest_render(ts.skip(1), rest);
        assert(seq![ts[0]] + ts.skip(1) =~= ts);
    }
}

/// Appends the tracks from position `k` on, closing bracket included.
fn push_tracks_rest(out: &mut Vec<char>, list: &Vec<crate::types::Track>, k: usize)
    requires
        1 <= k <= list@.len(),
    ensures
        final(out)@ == old(out)@ + spec_render_tracks_rest(list@.skip(k as int)),
    decreases list@.len() - k,
{
    if k == list.len() {
        out.push(']');
        proof {
            assert(list@.skip(k as int).len() == 0);
            assert(out@ =~= old(out)@ + spec_render_tracks_rest(list@.skip(k as int)));
        }
    } else {
        out.push(',');
        push_track(out, &list[k]);
        push_tracks_rest(out, list, k + 1);
        proof {
            assert(list@.skip(k as int)[0] == list@[k as int]);
            crate::ids::lemma_skip_skip(list@, k as int, 1);
            assert(out@ =~= old(out)@ + spec_render_tracks_rest(list@.skip(k as int)));
        }
    }
}

/// Appends a whole tracklist after its opening bracket.
fn push_tracks(out: &mut Vec<char>, list: &Vec<crate::types::Track>)
    ensures
        final(out)@ == old(out)@ + spec_render_tracks(list@),
{
    if list.len() == 0 {
        out.push(']');
        proof {
            assert(out@ =~= old(out)@ + spec_render_tracks(list@));
        }
    } else {
        push_track(out, &list[0]);
        push_tracks_rest(out, list, 1);
        proof {
            assert(out@ =~= old(out)@ + spec_render_tracks(list@));
        }
    }
}

/// Reads the tracks after the first at position `i`.
fn parse_tracks_rest_chars(s: &Vec<char>, i: usize) -> (r: Option<(Vec<crate::types::Track>, usize)>)
    requires
        i <= s@.len(),
    ensures
        ({
            let m = spec_parse_tracks_rest(s@.skip(i as int));
            match r {
                None => m is None,
                Some((ts, j)) => {
                    &&& i <= j <= s@.len()
                    &&& m == Some((ts@, s@.skip(j as int)))
                },
            }
        }),
    decreases s@.len() - i,
{
    if i >= s.len() {
        return None;
    }
    let c = s[i];
    proof {
        assert(s@.skip(i as int)[0] == s@[i as int]);
    }
    if c == ']' {
        proof {
            crate::ids::lemma_skip_skip(s@, i as int, 1);
        }
        let ts: Vec<crate::types::Track> = Vec::new();
        Some((ts, i + 1))
    } else if c == ',' {
        proof {
            crate::ids::lemma_skip_skip(s@, i as int, 1);
        }
        match parse_track_chars(s, i + 1) {
            None => None,
            Some((t, j)) => {
                if j <= i {
                    return None;
                }
                match parse_tracks_rest_chars(s, j) {
                    None => None,
                    Some((ts, j2)) => {
                        let mut ts2 = ts;
                        ts2.insert(0, t);
                        proof {
                            assert(ts2@ =~= seq![t] + ts@);
                        }
                        Some((ts2, j2))
                    },
                }
            },
        }
    } else {
        None
    }
}

/// Reads a whole tracklist after its opening bracket at position `i`.
fn parse_tracks_chars(s: &Vec<char>, i: usize) -> (r: Option<(Vec<crate::types::Track>, usize)>)
    requires
        i <= s@.len(),
    ensures
        ({
            let m = spec_parse_tracks(s@.skip(i as int));
            match r {
                None => m is None,
                Some((ts, j)) => {
                    &&& i <= j <= s@.len()
                    &&& m == Some((ts@, s@.skip(j as int)))
                },
            }
        }),
{
    if i >= s.len() {
        return None;
    }
    let c = s[i];
    proof {
        assert(s@.skip(i as int)[0] == s@[i as int]);
    }
    if c == ']' {
        proof {
            crate::ids::lemma_skip_skip(s@, i as int, 1);
        }
        let ts: Vec<crate::types::Track> = Vec::new();
        Some((ts, i + 1))
    } else {
        match parse_track_chars(s, i) {
            None => None,
            Some((t, j)) => {
                if j <= i {
                    return None;
                }
                match parse_tracks_rest_chars(s, j) {
                    None => None,
                    Some((ts, j2)) => {
                        let mut ts2 = ts;
                        ts2.insert(0, t);
                        proof {
                            assert(ts2@ =~= seq![t] + ts@);
                        }
                        Some((ts2, j2))
                    },
                }
            },
        }
    }
}

/// A whole playlist object, in the crate's canonical field order.
pub open spec fn spec_render_playlist(p: crate::types::PlaylistData) -> Seq<char> {
    "{\"name\":"@ + spec_render_string(p.name) + ",\"description\":"@ + spec_render_opt_string(
        p.description,
    ) + ",\"tracklist\":["@ + spec_render_tracks(p.tracklist) + ",\"timestamp\":"@
        + spec_render_string(p.timestamp) + ",\"uuid\":"@ + spec_render_uuid_str(p.uuid) + "}"@
}

/// Reads a whole playlist object.
pub open spec fn spec_parse_playlist(s: Seq<char>) -> Option<
    (crate::types::PlaylistData, Seq<char>),
> {
    match crate::text::spec_expect(s, "{\"name\":"@) {
        None => None,
        Some(r1) => match spec_parse_string(r1) {
            None => None,
            Some((name, r2)) => match crate::text::spec_expect(r2, ",\"description\":"@) {
                None => None,
                Some(r3) => match spec_parse_opt_string(r3) {
                    None => None,
                    Some((desc, r4)) => match crate::text::spec_expect(r4, ",\"tracklist\":["@) {
                        None => None,
                        Some(r5) => match spec_parse_tracks(r5) {
                            None => None,
                            Some((ts, r6)) => match crate::text::spec_expect(
                                r6,
                                ",\"timestamp\":"@,
                            ) {
                                None => None,
                                Some(r7) => match spec_parse_string(r7) {
                                    None => None,
                                    Some((stamp, r8)) => match crate::text::spec_expect(
                                        r8,
                                        ",\"uuid\":"@,
                                    ) {
                                        None => None,
                                        Some(r9) => match spec_parse_uuid_str(r9) {
                                            None => None,
                                            Some((u, r10)) => match crate::text::spec_expect(
                                                r10,
                                                "}"@,
                                            ) {
                                                None => None,
                                                Some(r11) => Some(
                                                    (
                                                        crate::types::PlaylistData {
                                                            name: name,
                                                            description: desc,
                                                            tracklist: ts,
                                                            timestamp: stamp,
                                                            uuid: u,
                                                        },
                                                        r11,
                                                    ),
                                                ),
                                            },
                                        },
                                    },
                                },
                            },
                        },
                    },
                },
            },
        },
    }
}

/// Parsing a rendered playlist recovers it, field for field.
#[verifier::rlimit(100)]
pub proof fn lemma_parse_playlist_render(p: crate::types::PlaylistData, rest: Seq<char>)
    ensures
        spec_parse_playlist(spec_render_playlist(p) + rest) == Some((p, rest)),
{
    let t11 = "}"@ + rest;
    let t10 = spec_render_uuid_str(p.uuid) + t11;
    let t9 = ",\"uuid\":"@ + t10;
    let t8 = spec_render_string(p.timestamp) + t9;
    let t7 = ",\"timestamp\":"@ + t8;
    let t6 = spec_render_tracks(p.tracklist) + t7;
    let t5 = ",\"tracklist\":["@ + t6;
    let t4 = spec_render_opt_string(p.description) + t5;
    let t3 = ",\"description\":"@ + t4;
    let t2 = spec_render_string(p.name) + t3;
    let t1 = "{\"name\":"@ + t2;
    assert(spec_render_playlist(p) + rest =~= t1);
    crate::text::lemma_expect_concat("{\"name\":"@, t2);
    lemma_parse_string_render(p.name, t3);
    crate::text::lemma_expect_concat(",\"description\":"@, t4);
    lemma_parse_opt_string_render(p.description, t5);
    crate::text::lemma_expect_concat(",\"tracklist\":["@, t6);
    lemma_parse_tracks_render(p.tracklist, t7);
    crate::text::lemma_expect_concat(",\"timestamp\":"@, t8);
    lemma_parse_string_render(p.timestamp, t9);
    crate::text::lemma_expect_concat(",\"uuid\":"@, t10);
    lemma_parse_uuid_str_render(p.uuid, t11);
    crate::text::lemma_expect_concat("}"@, rest);
}

/// Round trip: a playlist parses back from its rendering, field for field,
/// with nothing left over.  When its tracklist holds no duplicates, reading
/// it back under set semantics also reproduces the tracklist exactly, so
/// the playlist comes back equal even before the equality rule discards the
/// timestamp.
pub proof fn lemma_playlist_roundtrip(p: crate::types::PlaylistData)
    ensures
        spec_parse_playlist(spec_render_playlist(p)) == Some((p, Seq::<char>::empty())),
        crate::types::no_dup_tracks(p.tracklist) ==> crate::types::spec_merge(
            Seq::<crate::types::Track>::empty(),
            p.tracklist,
        ) == p.tracklist,
{
    lemma_parse_playlist_render(p, Seq::empty());
    assert(spec_render_playlist(p) + Seq::<char>::empty() =~= spec_render_playlist(p));
    if crate::types::no_dup_tracks(p.tracklist) {
        crate::types::lemma_merge_into_empty(p.tracklist);
    }
}

/// Reads a playlist object at position `i`; the tracklist is taken as it
/// stands in the text, duplicates included.
fn parse_playlist_chars(s: &Vec<char>, i: usize) -> (r: Option<(crate::types::Playlist, usize)>)
    requires
        i <= s@.len(),
    ensures
        ({
            let m = spec_parse_playlist(s@.skip(i as int));
            match r {
                None => m is None,
                Some((p, j)) => {
                    &&& i <= j <= s@.len()
                    &&& m == Some((p@, s@.skip(j as int)))
                },
            }
        }),
{
    let j1 = match crate::text::expect_lit(s, i, "{\"name\":") {
        None => {
            return None;
        },
        Some(j) => j,
    };
    let (namev, j2) = match parse_string_chars(s, j1) {
        None => {
            return None;
        },
        Some(x) => x,
    };
    let j3 = match crate::text::expect_lit(s, j2, ",\"description\":") {
        None => {
            return None;
        },
        Some(j) => j,
    };
    let (descv, j4) = match parse_opt_string_chars(s, j3) {
        None => {
            return None;
        },
        Some(x) => x,
    };
    let j5 = match crate::text::expect_lit(s, j4, ",\"tracklist\":[") {
        None => {
            return None;
        },
        Some(j) => j,
    };
    let (tsv, j6) = match parse_tracks_chars(s, j5) {
        None => {
            return None;
        },
        Some(x) => x,
    };
    let j7 = match crate::text::expect_lit(s, j6, ",\"timestamp\":") {
        None => {
            return None;
        },
        Some(j) => j,
    };
    let (stampv, j8) = match parse_string_chars(s, j7) {
        None => {
            return None;
        },
        Some(x) => x,
    };
    let j9 = match crate::text::expect_lit(s, j8, ",\"uuid\":") {
        None => {
            return None;
        },
        Some(j) => j,
    };
    let (idv, j10) = match parse_uuid_str_chars(s, j9) {
        None => {
            return None;
        },
        Some(x) => x,
    };
    let j11 = match crate::text::expect_lit(s, j10, "}") {
        None => {
            return None;
        },
        Some(j) => j,
    };
    let name = crate::text::chars_to_string(&namev);
    let description = match descv {
        Option::None => None,
        Option::Some(v) => Some(crate::text::chars_to_string(&v)),
    };
    let timestamp = crate::text::chars_to_string(&stampv);
    let p = crate::types::Playlist {
        name,
        description,
        tracklist: tsv,
        timestamp,
        uuid: idv,
    };
    Some((p, j11))
}

impl crate::types::Playlist {
    /// Renders this playlist in the canonical JSON form.
    pub fn to_json(&self) -> (out: String)
        ensures
            out@ == spec_render_playlist(self@),
    {
        let mut out: Vec<char> = Vec::new();
        crate::text::push_lit(&mut out, "{\"name\":");
        push_json_string(&mut out, self.name.as_str());
        crate::text::push_lit(&mut out, ",\"description\":");
        push_opt_string(&mut out, &self.description);
        crate::text::push_lit(&mut out, ",\"tracklist\":[");
        push_tracks(&mut out, &self.tracklist);
        crate::text::push_lit(&mut out, ",\"timestamp\":");
        push_json_string(&mut out, self.timestamp.as_str());
        crate::text::push_lit(&mut out, ",\"uuid\":");
        push_uuid_str(&mut out, self.uuid);
        crate::text::push_lit(&mut out, "}");
        proof {
            assert(out@ =~= spec_render_playlist(self@));
        }
        crate::text::chars_to_string(&out)
    }

    /// Reads a playlist from its JSON text.  Exactly the texts of the
    /// canonical grammar are accepted; anything else is `CorruptData`.  The
    /// tracklist is taken over under set semantics, so the result is
    /// well-formed even when the text lists an identity twice.
    pub fn from_str(s: &str) -> (r: Result<crate::types::Playlist, crate::errors::EdaboError>)
        ensures
            ({
                let m = spec_parse_playlist(s@);
                match r {
                    Ok(p) => {
                        &&& m matches Some((pd, tail)) && tail.len() == 0 && p@.name == pd.name
                            && p@.description == pd.description && p@.timestamp == pd.timestamp
                            && p@.uuid == pd.uuid && p@.tracklist == crate::types::spec_merge(
                            Seq::<crate::types::Track>::empty(),
                            pd.tracklist,
                        )
                        &&& p.wf()
                    },
                    Err(e) => {
                        &&& !(m matches Some((pd, tail)) && tail.len() == 0)
                        &&& e.kind matches crate::errors::ErrorKind::CorruptData
                        &&& e.detail is None
                    },
                }
            }),
    {
        let chars = crate::text::str_to_chars(s);
        proof {
            assert(chars@.skip(0) =~= s@);
        }
        match parse_playlist_chars(&chars, 0) {
            None => Err(
                crate::errors::EdaboError {
                    kind: crate::errors::ErrorKind::CorruptData,
                    detail: None,
                },
            ),
            Some((raw, j)) => {
                if j == chars.len() {
                    proof {
                        assert(chars@.skip(j as int).len() == 0);
                    }
                    let crate::types::Playlist {
                        name, description, tracklist, timestamp, uuid } = raw;
                    let mut p = crate::types::Playlist {
                        name,
                        description,
                        tracklist: Vec::new(),
                        timestamp,
                        uuid,
                    };
                    p.merge_from(&tracklist);
                    Ok(p)
                } else {
                    proof {
                        assert(chars@.skip(j as int).len() > 0);
                    }
                    Err(
                        crate::errors::EdaboError {
                            kind: crate::errors::ErrorKind::CorruptData,
                            detail: None,
                        },
                    )
                }
            },
        }
    }
}

} // verus!
