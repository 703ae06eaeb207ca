//! The canonical on-disk documents for the configuration and the bookmarks,
//! written and read by this library so that what is saved is exactly what a
//! later start loads.

use crate::bookmarks::Bookmark;
use crate::config::{default_config, is_default_config, AppConfig};
use crate::decimal::{
    dec_digits, format_usize, is_digit, lemma_dec_digits_wf, parse_usize, spec_parse_usize,
};
use crate::text::{push_char, str_eq};
use vstd::prelude::*;

verus! {

/// How one character stands inside a quoted string: the quote, the
/// backslash and the common control characters are escaped, anything else
/// stands as itself.
pub open spec fn esc_char(c: char) -> Seq<char> {
    if c == '"' {
        seq!['\\', '"']
    } else if c == '\\' {
        seq!['\\', '\\']
    } else if c == '\n' {
        seq!['\\', 'n']
    } else if c == '\r' {
        seq!['\\', 'r']
    } else if c == '\t' {
        seq!['\\', 't']
    } else {
        seq![c]
    }
}

/// A whole text, escaped character by character.
pub open spec fn esc_str(s: Seq<char>) -> Seq<char>
    decreases s.len(),
{
    if s.len() == 0 {
        Seq::empty()
    } else {
        esc_char(s[0]) + esc_str(s.drop_first())
    }
}

/// The character an escape stands for, if the escape is known.
pub open spec fn unesc_char(c: char) -> Option<char> {
    if c == '"' {
        Some('"')
    } else if c == '\\' {
        Some('\\')
    } else if c == 'n' {
        Some('\n')
    } else if c == 'r' {
        Some('\r')
    } else if c == 't' {
        Some('\t')
    } else {
        None
    }
}

/// Read a quoted string's body up to its closing quote: the unescaped
/// content, and what follows the quote.
pub open spec fn parse_jstring(s: Seq<char>) -> Option<(Seq<char>, Seq<char>)>
    decreases s.len(),
{
    if s.len() == 0 {
        None
    } else if s[0] == '"' {
        Some((Seq::empty(), s.drop_first()))
    } else if s[0] == '\\' {
        if s.len() < 2 {
            None
        } else {
            match unesc_char(s[1]) {
                Some(c) => match parse_jstring(s.skip(2)) {
                    Some(p) => Some((seq![c] + p.0, p.1)),
                    None => None,
                },
                None => None,
            }
        }
    } else {
        match parse_jstring(s.drop_first()) {
            Some(p) => Some((seq![s[0]] + p.0, p.1)),
            None => None,
        }
    }
}

/// The rest of `s` after a literal prefix, when the prefix is there.
pub open spec fn skip_lit(s: Seq<char>, lit: Seq<char>) -> Option<Seq<char>> {
    if s.len() >= lit.len() && s.take(lit.len() as int) == lit {
        Some(s.skip(lit.len() as int))
    } else {
        None
    }
}

pub proof fn lemma_skip_lit(lit: Seq<char>, rest: Seq<char>)
    ensures
        skip_lit(lit + rest, lit) == Some(rest),
{
    assert((lit + rest).take(lit.len() as int) =~= lit);
    assert((lit + rest).skip(lit.len() as int) =~= rest);
}

/// Escaping distributes over concatenation.
pub proof fn lemma_esc_concat(a: Seq<char>, b: Seq<char>)
    ensures
        esc_str(a + b) == esc_str(a) + esc_str(b),
    decreases a.len(),
{
    if a.len() == 0 {
        assert(a + b =~= b);
        assert(esc_str(a) + esc_str(b) =~= esc_str(b));
    } else {
        lemma_esc_concat(a.drop_first(), b);
        assert((a + b).drop_first() =~= a.drop_first() + b);
        assert((a + b)[0] == a[0]);
        assert(esc_char(a[0]) + (esc_str(a.drop_first()) + esc_str(b)) =~= (esc_char(a[0])
            + esc_str(a.drop_first())) + esc_str(b));
    }
}

/// Whatever was escaped reads back as itself: the parse of an escaped text,
/// a closing quote and a remainder is exactly that text and that remainder.
pub proof fn lemma_jstring_round_trip(s: Seq<char>, rest: Seq<char>)
    ensures
        parse_jstring(esc_str(s) + seq!['"'] + rest) == Some((s, rest)),
    decreases s.len(),
{
    let input = esc_str(s) + seq!['"'] + rest;
    if s.len() == 0 {
        assert(input =~= seq!['"'] + rest);
        assert(input[0] == '"');
        assert(input.drop_first() =~= rest);
    } else {
        let c = s[0];
        lemma_jstring_round_trip(s.drop_first(), rest);
        let inner = esc_str(s.drop_first()) + seq!['"'] + rest;
        assert(esc_str(s) == esc_char(c) + esc_str(s.drop_first()));
        if c == '"' || c == '\\' || c == '\n' || c == '\r' || c == '\t' {
            let e = esc_char(c)[1];
            assert(input[0] == '\\');
            assert(input[1] == e);
            assert(unesc_char(e) == Some(c));
            assert(input.skip(2) =~= inner);
            assert(input.len() >= 2);
            let p = parse_jstring(inner).unwrap();
            assert(parse_jstring(input) == Some((seq![c] + p.0, p.1)));
            assert(seq![c] + s.drop_first() =~= s);
        } else {
            assert(esc_char(c) == seq![c]);
            assert(input[0] == c);
            assert(input.drop_first() =~= inner);
            let p = parse_jstring(inner).unwrap();
            assert(parse_jstring(input) == Some((seq![c] + p.0, p.1)));
            assert(seq![c] + s.drop_first() =~= s);
        }
    }
}

/// Append the escaped form of `s` to `out`.
fn append_escaped(out: &mut String, s: &str)
    ensures
        final(out)@ == old(out)@ + esc_str(s@),
{
    let n = s.unicode_len();
    let mut i: usize = 0;
    proof {
        assert(out@ + esc_str(s@.take(0)) =~= out@);
    }
    while i < n
        invariant
            i <= n,
            n == s@.len(),
            out@ == old(out)@ + esc_str(s@.take(i as int)),
        decreases n - i,
    {
        let c = s.get_char(i);
        proof {
            assert(s@.take(i as int + 1) =~= s@.take(i as int) + seq![s@[i as int]]);
            lemma_esc_concat(s@.take(i as int), seq![s@[i as int]]);
            assert(seq![s@[i as int]].drop_first() =~= Seq::<char>::empty());
            assert(esc_str(seq![s@[i as int]]) == esc_char(s@[i as int]) + esc_str(
                Seq::<char>::empty(),
            ));
            assert(esc_char(s@[i as int]) + Seq::<char>::empty() =~= esc_char(s@[i as int]));
        }
        if c == '"' {
            out.append("\\\"");
            proof {
                reveal_strlit("\\\"");
                assert("\\\""@ =~= esc_char(c));
            }
        } else if c == '\\' {
            out.append("\\\\");
            proof {
                reveal_strlit("\\\\");
                assert("\\\\"@ =~= esc_char(c));
            }
        } else if c == '\n' {
            out.append("\\n");
            proof {
                reveal_strlit("\\n");
                assert("\\n"@ =~= esc_char(c));
            }
        } else if c == '\r' {
            out.append("\\r");
            proof {
                reveal_strlit("\\r");
                assert("\\r"@ =~= esc_char(c));
            }
        } else if c == '\t' {
            out.append("\\t");
            proof {
                reveal_strlit("\\t");
                assert("\\t"@ =~= esc_char(c));
            }
        } else {
            push_char(out, c);
            proof {
                assert(seq![c] =~= esc_char(c));
            }
        }
        proof {
            assert(out@ =~= old(out)@ + esc_str(s@.take(i as int + 1)));
        }
        i = i + 1;
    }
    proof {
        assert(s@.take(n as int) =~= s@);
    }
}

/// The known escape a character stands for.
fn unescape_char(e: char) -> (r: Option<char>)
    ensures
        r == unesc_char(e),
{
    match e {
        '"' => Some('"'),
        '\\' => Some('\\'),
        'n' => Some('\n'),
        'r' => Some('\r'),
        't' => Some('\t'),
        _ => None,
    }
}

/// Read a quoted string's body up to its closing quote.
fn parse_jstring_str<'a>(s: &'a str) -> (r: Option<(String, &'a str)>)
    ensures
        match r {
            Some(p) => parse_jstring(s@) == Some((p.0@, p.1@)),
            None => parse_jstring(s@) is None,
        },
    decreases s@.len(),
{
    let n = s.unicode_len();
    if n == 0 {
        return None;
    }
    let c0 = s.get_char(0);
    if c0 == '"' {
        let rest = s.substring_char(1, n);
        proof {
            assert(rest@ =~= s@.drop_first());
        }
        return Some((String::new(), rest));
    }
    if c0 == '\\' {
        if n < 2 {
            return None;
        }
        let u = match unescape_char(s.get_char(1)) {
            Some(u) => u,
            None => {
                return None;
            },
        };
        let tail = s.substring_char(2, n);
        proof {
            assert(tail@ =~= s@.skip(2));
        }
        match parse_jstring_str(tail) {
            Some(p) => {
                let mut out = String::new();
                push_char(&mut out, u);
                out.append(p.0.as_str());
                proof {
                    assert(out@ =~= seq![u] + p.0@);
                }
                Some((out, p.1))
            },
            None => None,
        }
    } else {
        let tail = s.substring_char(1, n);
        proof {
            assert(tail@ =~= s@.drop_first());
        }
        match parse_jstring_str(tail) {
            Some(p) => {
                let mut out = String::new();
                push_char(&mut out, c0);
                out.append(p.0.as_str());
                proof {
                    assert(out@ =~= seq![c0] + p.0@);
                }
                Some((out, p.1))
            },
            None => None,
        }
    }
}

/// The rest of `s` after a literal prefix, when the prefix is there.
fn expect_lit<'a>(s: &'a str, lit: &str) -> (r: Option<&'a str>)
    ensures
        match r {
            Some(rest) => skip_lit(s@, lit@) == Some(rest@),
            None => skip_lit(s@, lit@) is None,
        },
{
    let n = s.unicode_len();
    let m = lit.unicode_len();
    if n < m {
        return None;
    }
    let head = s.substring_char(0, m);
    proof {
        assert(head@ =~= s@.take(lit@.len() as int));
    }
    if str_eq(head, lit) {
        let rest = s.substring_char(m, n);
        proof {
            assert(rest@ =~= s@.skip(lit@.len() as int));
        }
        Some(rest)
    } else {
        None
    }
}

/// How many leading digit characters `s` has.
pub open spec fn span_digits(s: Seq<char>) -> int
    decreases s.len(),
{
    if s.len() == 0 {
        0
    } else if !is_digit(s[0]) {
        0
    } else {
        1 + span_digits(s.drop_first())
    }
}

/// The exact count of leading digits pins `span_digits` down.
pub proof fn lemma_span_digits_of(s: Seq<char>, j: int)
    requires
        0 <= j <= s.len(),
        forall|k: int| 0 <= k < j ==> is_digit(s[k]),
        j < s.len() ==> !is_digit(s[j]),
    ensures
        span_digits(s) == j,
    decreases s.len(),
{
    if s.len() == 0 {
    } else if j == 0 {
    } else {
        assert(is_digit(s[0]));
        let d = s.drop_first();
        assert forall|k: int| 0 <= k < j - 1 implies is_digit(d[k]) by {
            assert(d[k] == s[k + 1]);
        }
        assert(j - 1 < d.len() ==> !is_digit(d[j - 1])) by {
            if j - 1 < d.len() {
                assert(d[j - 1] == s[j]);
            }
        }
        lemma_span_digits_of(d, j - 1);
    }
}

/// Read a number: the longest run of leading digits, which must form a
/// canonical numeral that fits the machine word.
pub open spec fn parse_number(s: Seq<char>) -> Option<(usize, Seq<char>)> {
    match spec_parse_usize(s.take(span_digits(s))) {
        Some(v) => Some((v, s.skip(span_digits(s)))),
        None => None,
    }
}

/// A written numeral reads back as its number whenever what follows starts
/// with no digit.
pub proof fn lemma_number_round_trip(m: usize, rest: Seq<char>)
    requires
        rest.len() == 0 || !is_digit(rest[0]),
    ensures
        parse_number(dec_digits(m as nat) + rest) == Some((m, rest)),
{
    let d = dec_digits(m as nat);
    lemma_dec_digits_wf(m as nat);
    let s = d + rest;
    assert forall|k: int| 0 <= k < d.len() implies is_digit(s[k]) by {
        assert(s[k] == d[k]);
    }
    assert(d.len() < s.len() ==> !is_digit(s[d.len() as int])) by {
        if d.len() < s.len() {
            assert(s[d.len() as int] == rest[0]);
        }
    }
    lemma_span_digits_of(s, d.len() as int);
    assert(s.take(d.len() as int) =~= d);
    assert(s.skip(d.len() as int) =~= rest);
}

/// The written form of a truth value.
pub open spec fn bool_lit(b: bool) -> Seq<char> {
    if b {
        "true"@
    } else {
        "false"@
    }
}

pub open spec fn parse_bool(s: Seq<char>) -> Option<(bool, Seq<char>)> {
    match skip_lit(s, "true"@) {
        Some(rest) => Some((true, rest)),
        None => match skip_lit(s, "false"@) {
            Some(rest) => Some((false, rest)),
            None => None,
        },
    }
}

pub proof fn lemma_bool_round_trip(b: bool, rest: Seq<char>)
    ensures
        parse_bool(bool_lit(b) + rest) == Some((b, rest)),
{
    reveal_strlit("true");
    reveal_strlit("false");
    lemma_skip_lit(bool_lit(b), rest);
    if !b {
        let s = bool_lit(b) + rest;
        if skip_lit(s, "true"@) is Some {
            assert(s.take(4)[0] == s[0]);
            assert(s[0] == 'f');
            assert("true"@[0] == 't');
        }
    }
}

/// The configuration document: one object holding the four fields, in this
/// order, with no surrounding whitespace.
pub open spec fn config_doc(
    max_items: nat,
    open_shortcut: Seq<char>,
    bookmark_shortcut: Seq<char>,
    start_minimized: bool,
) -> Seq<char> {
    "{\"maxItems\":"@ + dec_digits(max_items) + ",\"openShortcut\":\""@ + esc_str(open_shortcut)
        + "\",\"bookmarkShortcut\":\""@ + esc_str(bookmark_shortcut) + "\",\"startMinimized\":"@
        + bool_lit(start_minimized) + "}"@
}

/// What a configuration document parses to, if anything: the document must
/// be exactly of the canonical form the library writes.
pub open spec fn parse_config_doc(s: Seq<char>) -> Option<(usize, Seq<char>, Seq<char>, bool)> {
    match skip_lit(s, "{\"maxItems\":"@) {
        Some(s1) => match parse_number(s1) {
            Some((m, s2)) => match skip_lit(s2, ",\"openShortcut\":\""@) {
                Some(s3) => match parse_jstring(s3) {
                    Some((os, s4)) => match skip_lit(s4, ",\"bookmarkShortcut\":\""@) {
                        Some(s5) => match parse_jstring(s5) {
                            Some((bs, s6)) => match skip_lit(s6, ",\"startMinimized\":"@) {
                                Some(s7) => match parse_bool(s7) {
                                    Some((sm, s8)) => match skip_lit(s8, "}"@) {
                                        Some(s9) => if s9.len() == 0 {
                                            Some((m, os, bs, sm))
                                        } else {
                                            None
                                        },
                                        None => None,
                                    },
                                    None => None,
                                },
                                None => None,
                            },
                            None => None,
                        },
                        None => None,
                    },
                    None => None,
                },
                None => None,
            },
            None => None,
        },
        None => None,
    }
}

/// The configuration document round-trips: parsing what was written yields
/// exactly the fields that were written.
pub proof fn lemma_config_round_trip(
    max_items: usize,
    open_shortcut: Seq<char>,
    bookmark_shortcut: Seq<char>,
    start_minimized: bool,
) ensures
    parse_config_doc(
        config_doc(max_items as nat, open_shortcut, bookmark_shortcut, start_minimized),
    ) == Some((max_items, open_shortcut, bookmark_shortcut, start_minimized)),
{
    let s = config_doc(max_items as nat, open_shortcut, bookmark_shortcut, start_minimized);
    let x8 = "}"@ + Seq::<char>::empty();
    let x7 = bool_lit(start_minimized) + x8;
    let x6 = ",\"startMinimized\":"@ + x7;
    let x5 = esc_str(bookmark_shortcut) + seq!['"'] + x6;
    let x4 = ",\"bookmarkShortcut\":\""@ + x5;
    let x3 = esc_str(open_shortcut) + seq!['"'] + x4;
    let x2 = ",\"openShortcut\":\""@ + x3;
    let x1 = dec_digits(max_items as nat) + x2;
    reveal_strlit("\",\"bookmarkShortcut\":\"");
    reveal_strlit(",\"bookmarkShortcut\":\"");
    reveal_strlit("\",\"startMinimized\":");
    reveal_strlit(",\"startMinimized\":");
    reveal_strlit(",\"openShortcut\":\"");
    reveal_strlit("}");
    assert("\",\"bookmarkShortcut\":\""@ =~= seq!['"'] + ",\"bookmarkShortcut\":\""@);
    assert("\",\"startMinimized\":"@ =~= seq!['"'] + ",\"startMinimized\":"@);
    assert(s =~= "{\"maxItems\":"@ + x1);
    lemma_skip_lit("{\"maxItems\":"@, x1);
    assert(x2.len() > 0 && x2[0] == ',');
    assert(!is_digit(','));
    lemma_number_round_trip(max_items, x2);
    lemma_skip_lit(",\"openShortcut\":\""@, x3);
    lemma_jstring_round_trip(open_shortcut, x4);
    lemma_skip_lit(",\"bookmarkShortcut\":\""@, x5);
    lemma_jstring_round_trip(bookmark_shortcut, x6);
    lemma_skip_lit(",\"startMinimized\":"@, x7);
    lemma_bool_round_trip(start_minimized, x8);
    lemma_skip_lit("}"@, Seq::<char>::empty());
}

/// Write the configuration document.
pub fn config_to_json(c: &AppConfig) -> (r: String)
    ensures
        r@ == config_doc(
            c.max_items as nat,
            c.open_shortcut@,
            c.bookmark_shortcut@,
            c.start_minimized,
        ),
{
    let mut out = String::from_str("{\"maxItems\":");
    let d = format_usize(c.max_items);
    out.append(d.as_str());
    out.append(",\"openShortcut\":\"");
    append_escaped(&mut out, c.open_shortcut.as_str());
    out.append("\",\"bookmarkShortcut\":\"");
    append_escaped(&mut out, c.bookmark_shortcut.as_str());
    out.append("\",\"startMinimized\":");
    if c.start_minimized {
        out.append("true");
    } else {
        out.append("false");
    }
    out.append("}");
    proof {
        assert(out@ =~= config_doc(
            c.max_items as nat,
            c.open_shortcut@,
            c.bookmark_shortcut@,
            c.start_minimized,
        ));
    }
    out
}

/// Read a number off the front of `s`.
fn parse_number_str<'a>(s: &'a str) -> (r: Option<(usize, &'a str)>)
    ensures
        match r {
            Some(p) => parse_number(s@) == Some((p.0, p.1@)),
            None => parse_number(s@) is None,
        },
{
    let n = s.unicode_len();
    let mut j: usize = 0;
    let mut stop = false;
    while !stop && j < n
        invariant
            j <= n,
            n == s@.len(),
            forall|k: int| 0 <= k < j ==> is_digit(s@[k]),
            stop ==> j < n && !is_digit(s@[j as int]),
        decreases n - j, 1int - (if stop { 1int } else { 0int }),
    {
        let c = s.get_char(j);
        let v = c as u32;
        if 48 <= v && v <= 57 {
            j = j + 1;
        } else {
            stop = true;
        }
    }
    proof {
        lemma_span_digits_of(s@, j as int);
    }
    let digits = s.substring_char(0, j);
    proof {
        assert(digits@ =~= s@.take(span_digits(s@)));
    }
    match parse_usize(digits) {
        Some(v) => {
            let rest = s.substring_char(j, n);
            proof {
                assert(rest@ =~= s@.skip(span_digits(s@)));
            }
            Some((v, rest))
        },
        None => None,
    }
}

/// Read a truth value off the front of `s`.
fn parse_bool_str<'a>(s: &'a str) -> (r: Option<(bool, &'a str)>)
    ensures
        match r {
            Some(p) => parse_bool(s@) == Some((p.0, p.1@)),
            None => parse_bool(s@) is None,
        },
{
    if let Some(rest) = expect_lit(s, "true") {
        return Some((true, rest));
    }
    if let Some(rest) = expect_lit(s, "false") {
        return Some((false, rest));
    }
    None
}

/// Read a configuration document; anything but the canonical form yields
/// nothing.
pub fn config_from_json(s: &str) -> (r: Option<AppConfig>)
    ensures
        match r {
            Some(c) => parse_config_doc(s@) == Some(
                (c.max_items, c.open_shortcut@, c.bookmark_shortcut@, c.start_minimized),
            ),
            None => parse_config_doc(s@) is None,
        },
{
    let s1 = match expect_lit(s, "{\"maxItems\":") {
        Some(x) => x,
        None => {
            return None;
        },
    };
    let (max_items, s2) = match parse_number_str(s1) {
        Some(p) => p,
        None => {
            return None;
        },
    };
    let s3 = match expect_lit(s2, ",\"openShortcut\":\"") {
        Some(x) => x,
        None => {
            return None;
        },
    };
    let (open_shortcut, s4) = match parse_jstring_str(s3) {
        Some(p) => p,
        None => {
            return None;
        },
    };
    let s5 = match expect_lit(s4, ",\"bookmarkShortcut\":\"") {
        Some(x) => x,
        None => {
            return None;
        },
    };
    let (bookmark_shortcut, s6) = match parse_jstring_str(s5) {
        Some(p) => p,
        None => {
            return None;
        },
    };
    let s7 = match expect_lit(s6, ",\"startMinimized\":") {
        Some(x) => x,
        None => {
            return None;
        },
    };
    let (start_minimized, s8) = match parse_bool_str(s7) {
        Some(p) => p,
        None => {
            return None;
        },
    };
    let s9 = match expect_lit(s8, "}") {
        Some(x) => x,
        None => {
            return None;
        },
    };
    if s9.unicode_len() == 0 {
        Some(AppConfig { max_items, open_shortcut, bookmark_shortcut, start_minimized })
    } else {
        None
    }
}

/// The configuration read from saved document contents, or the hardcoded
/// default whenever there are no contents or they do not parse.  A missing
/// or corrupt file is never fatal.
pub fn config_or_default(contents: Option<&str>) -> (c: AppConfig)
    ensures
        match contents {
            Some(s) => match parse_config_doc(s@) {
                Some(f) => c.max_items == f.0 && c.open_shortcut@ == f.1 && c.bookmark_shortcut@
                    == f.2 && c.start_minimized == f.3,
                None => is_default_config(c),
            },
            None => is_default_config(c),
        },
{
    match contents {
        Some(s) => match config_from_json(s) {
            Some(c) => c,
            None => default_config(),
        },
        None => default_config(),
    }
}

/// One bookmark as a document object.
pub open spec fn entry_doc(c: Seq<char>) -> Seq<char> {
    "{\"content\":\""@ + esc_str(c) + "\"}"@
}

/// The bookmark objects joined by commas.
pub open spec fn bookmarks_items_doc(bs: Seq<Seq<char>>) -> Seq<char>
    decreases bs.len(),
{
    if bs.len() == 0 {
        Seq::empty()
    } else if bs.len() == 1 {
        entry_doc(bs[0])
    } else {
        entry_doc(bs[0]) + ","@ + bookmarks_items_doc(bs.drop_first())
    }
}

/// The bookmarks document: the array of bookmark objects, oldest first.
pub open spec fn bookmarks_doc(bs: Seq<Seq<char>>) -> Seq<char> {
    "["@ + bookmarks_items_doc(bs) + "]"@
}

pub open spec fn parse_entry(s: Seq<char>) -> Option<(Seq<char>, Seq<char>)> {
    match skip_lit(s, "{\"content\":\""@) {
        Some(s1) => match parse_jstring(s1) {
            Some(p) => match skip_lit(p.1, "}"@) {
                Some(s3) => Some((p.0, s3)),
                None => None,
            },
            None => None,
        },
        None => None,
    }
}

/// The entries of the array after its `[`, up to and past the closing `]`.
pub open spec fn parse_bm_list(s: Seq<char>) -> Option<(Seq<Seq<char>>, Seq<char>)>
    decreases s.len(),
{
    match skip_lit(s, "]"@) {
        Some(rest) => Some((Seq::empty(), rest)),
        None => match parse_entry(s) {
            Some(p) => match skip_lit(p.1, ","@) {
                Some(s2) => if s2.len() < s.len() {
                    match parse_bm_list(s2) {
                        Some(q) => Some((seq![p.0] + q.0, q.1)),
                        None => None,
                    }
                } else {
                    None
                },
                None => match skip_lit(p.1, "]"@) {
                    Some(rest) => Some((seq![p.0], rest)),
                    None => None,
                },
            },
            None => None,
        },
    }
}

/// What a bookmarks document parses to, if anything.
pub open spec fn parse_bookmarks_doc(s: Seq<char>) -> Option<Seq<Seq<char>>> {
    match skip_lit(s, "["@) {
        Some(s1) => match parse_bm_list(s1) {
            Some(p) => if p.1.len() == 0 {
                Some(p.0)
            } else {
                None
            },
            None => None,
        },
        None => None,
    }
}

pub proof fn lemma_entry_round_trip(c: Seq<char>, rest: Seq<char>)
    ensures
        parse_entry(entry_doc(c) + rest) == Some((c, rest)),
{
    reveal_strlit("\"}");
    reveal_strlit("}");
    let x1 = esc_str(c) + seq!['"'] + ("}"@ + rest);
    assert("\"}"@ =~= seq!['"'] + "}"@);
    assert(entry_doc(c) + rest =~= "{\"content\":\""@ + x1);
    lemma_skip_lit("{\"content\":\""@, x1);
    lemma_jstring_round_trip(c, "}"@ + rest);
    lemma_skip_lit("}"@, rest);
}

pub proof fn lemma_bm_list_round_trip(bs: Seq<Seq<char>>, rest: Seq<char>)
    ensures
        parse_bm_list(bookmarks_items_doc(bs) + seq![']'] + rest) == Some((bs, rest)),
    decreases bs.len(),
{
    reveal_strlit("]");
    reveal_strlit(",");
    reveal_strlit("{\"content\":\"");
    let s = bookmarks_items_doc(bs) + seq![']'] + rest;
    if bs.len() == 0 {
        assert(s =~= "]"@ + rest);
        lemma_skip_lit("]"@, rest);
        assert(bs =~= Seq::<Seq<char>>::empty());
    } else {
        assert(s[0] == '{') by {
            assert(entry_doc(bs[0])[0] == "{\"content\":\""@[0]);
        }
        assert(skip_lit(s, "]"@) is None) by {
            if skip_lit(s, "]"@) is Some {
                assert(s.take(1)[0] == s[0]);
                assert("]"@[0] == ']');
            }
        }
        if bs.len() == 1 {
            assert(s =~= entry_doc(bs[0]) + (seq![']'] + rest));
            lemma_entry_round_trip(bs[0], seq![']'] + rest);
            let s1 = seq![']'] + rest;
            assert(skip_lit(s1, ","@) is None) by {
                if skip_lit(s1, ","@) is Some {
                    assert(s1.take(1)[0] == s1[0]);
                    assert(","@[0] == ',');
                }
            }
            assert(s1 =~= "]"@ + rest);
            lemma_skip_lit("]"@, rest);
            assert(seq![bs[0]] =~= bs);
        } else {
            let tail_items = bookmarks_items_doc(bs.drop_first());
            let after = tail_items + seq![']'] + rest;
            assert(s =~= entry_doc(bs[0]) + (seq![','] + after));
            lemma_entry_round_trip(bs[0], seq![','] + after);
            let s1 = seq![','] + after;
            assert(skip_lit(s1, ","@) is Some && skip_lit(s1, ","@).unwrap() =~= after) by {
                assert(s1 =~= ","@ + after);
                lemma_skip_lit(","@, after);
            }
            assert(after.len() < s.len()) by {
                assert(entry_doc(bs[0]).len() >= 1);
            }
            lemma_bm_list_round_trip(bs.drop_first(), rest);
            assert(seq![bs[0]] + bs.drop_first() =~= bs);
        }
    }
}

/// The bookmarks document round-trips: parsing what was written yields
/// exactly the contents that were written, in order.
pub proof fn lemma_bookmarks_round_trip(bs: Seq<Seq<char>>)
    ensures
        parse_bookmarks_doc(bookmarks_doc(bs)) == Some(bs),
{
    reveal_strlit("[");
    reveal_strlit("]");
    let inner = bookmarks_items_doc(bs) + seq![']'] + Seq::<char>::empty();
    assert(bookmarks_doc(bs) =~= "["@ + inner);
    lemma_skip_lit("["@, inner);
    lemma_bm_list_round_trip(bs, Seq::<char>::empty());
}

/// The bookmark objects from index `i` on, as document text.
fn bookmark_items_json(bs: &Vec<Bookmark>, i: usize) -> (r: String)
    requires
        i <= bs@.len(),
    ensures
        r@ == bookmarks_items_doc(bs.deep_view().skip(i as int)),
    decreases bs@.len() - i,
{
    let ghost dv = bs.deep_view();
    if i == bs.len() {
        proof {
            assert(dv.skip(i as int) =~= Seq::<Seq<char>>::empty());
        }
        String::new()
    } else {
        let mut out = String::from_str("{\"content\":\"");
        append_escaped(&mut out, bs[i].content.as_str());
        out.append("\"}");
        proof {
            assert(dv.skip(i as int)[0] == dv[i as int]);
            assert(out@ =~= entry_doc(dv.skip(i as int)[0]));
        }
        if i + 1 == bs.len() {
            proof {
                assert(dv.skip(i as int).len() == 1);
            }
            out
        } else {
            out.append(",");
            let tail = bookmark_items_json(bs, i + 1);
            out.append(tail.as_str());
            proof {
                assert(dv.skip(i as int).drop_first() =~= dv.skip(i as int + 1));
                assert(out@ =~= bookmarks_items_doc(dv.skip(i as int)));
            }
            out
        }
    }
}

/// Write the bookmarks document.
pub fn bookmarks_to_json(bs: &Vec<Bookmark>) -> (r: String)
    ensures
        r@ == bookmarks_doc(bs.deep_view()),
{
    let mut out = String::from_str("[");
    let items = bookmark_items_json(bs, 0);
    out.append(items.as_str());
    out.append("]");
    proof {
        assert(bs.deep_view().skip(0) =~= bs.deep_view());
        assert(out@ =~= bookmarks_doc(bs.deep_view()));
    }
    out
}

/// Read one bookmark object off the front of `s`.
fn parse_entry_str<'a>(s: &'a str) -> (r: Option<(String, &'a str)>)
    ensures
        match r {
            Some(p) => parse_entry(s@) == Some((p.0@, p.1@)),
            None => parse_entry(s@) is None,
        },
{
    let s1 = match expect_lit(s, "{\"content\":\"") {
        Some(x) => x,
        None => {
            return None;
        },
    };
    let p = match parse_jstring_str(s1) {
        Some(p) => p,
        None => {
            return None;
        },
    };
    let s3 = match expect_lit(p.1, "}") {
        Some(x) => x,
        None => {
            return None;
        },
    };
    Some((p.0, s3))
}

/// Read the array entries after the `[`.
fn parse_bm_list_str<'a>(s: &'a str) -> (r: Option<(Vec<Bookmark>, &'a str)>)
    ensures
        match r {
            Some(p) => parse_bm_list(s@) == Some((p.0.deep_view(), p.1@)),
            None => parse_bm_list(s@) is None,
        },
    decreases s@.len(),
{
    if let Some(rest) = expect_lit(s, "]") {
        let v: Vec<Bookmark> = Vec::new();
        proof {
            assert(v.deep_view() =~= Seq::<Seq<char>>::empty());
        }
        return Some((v, rest));
    }
    let p = match parse_entry_str(s) {
        Some(p) => p,
        None => {
            return None;
        },
    };
    let (content, s1) = p;
    let ghost cv = content@;
    if let Some(s2) = expect_lit(s1, ",") {
        if s2.unicode_len() < s.unicode_len() {
            match parse_bm_list_str(s2) {
                Some(q) => {
                    let (tail, rest) = q;
                    let ghost tv = tail.deep_view();
                    let mut v: Vec<Bookmark> = Vec::new();
                    v.push(Bookmark { content });
                    let mut tail_moved = tail;
                    v.append(&mut tail_moved);
                    proof {
                        assert(v.deep_view() =~= seq![cv] + tv);
                    }
                    return Some((v, rest));
                },
                None => {
                    return None;
                },
            }
        } else {
            return None;
        }
    }
    match expect_lit(s1, "]") {
        Some(rest) => {
            let mut v: Vec<Bookmark> = Vec::new();
            v.push(Bookmark { content });
            proof {
                assert(v.deep_view() =~= seq![cv]);
            }
            Some((v, rest))
        },
        None => None,
    }
}

/// Read a bookmarks document; anything but the canonical form yields
/// nothing.
pub fn bookmarks_from_json(s: &str) -> (r: Option<Vec<Bookmark>>)
    ensures
        match r {
            Some(v) => parse_bookmarks_doc(s@) == Some(v.deep_view()),
            None => parse_bookmarks_doc(s@) is None,
        },
{
    let s1 = match expect_lit(s, "[") {
        Some(x) => x,
        None => {
            return None;
        },
    };
    match parse_bm_list_str(s1) {
        Some(p) => {
            if p.1.unicode_len() == 0 {
                Some(p.0)
            } else {
                None
            }
        },
        None => None,
    }
}

/// The bookmarks read from saved document contents, or the empty list
/// whenever there are no contents or they do not parse.  A missing or
/// corrupt file is never fatal.
pub fn bookmarks_or_default(contents: Option<&str>) -> (v: Vec<Bookmark>)
    ensures
        match contents {
            Some(s) => match parse_bookmarks_doc(s@) {
                Some(cs) => v.deep_view() == cs,
                None => v.deep_view() == Seq::<Seq<char>>::empty(),
            },
            None => v.deep_view() == Seq::<Seq<char>>::empty(),
        },
{
    let empty_default: Vec<Bookmark> = Vec::new();
    proof {
        assert(empty_default.deep_view() =~= Seq::<Seq<char>>::empty());
    }
    match contents {
        Some(s) => match bookmarks_from_json(s) {
            Some(v) => v,
            None => empty_default,
        },
        None => empty_default,
    }
}

} // verus!
