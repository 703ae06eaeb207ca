//! Hotkey chords: modifier tokens joined by `+`, ending in one key token.

use crate::text::{push_char, str_eq};
use vstd::prelude::*;

verus! {

/// A modifier of a chord.  The generic `Meta` token of a chord string stands
/// for the platform's native Super key and is mapped to it while parsing.
#[derive(Clone, Copy, PartialEq, Eq, Structural, Debug)]
pub enum ChordModifier {
    Ctrl,
    Shift,
    Alt,
    Super,
}

/// A parsed hotkey chord: its modifiers in the order written, then the key.
pub struct ShortcutChord {
    pub modifiers: Vec<ChordModifier>,
    pub key: String,
}

/// The modifier a token names, with `Meta` as an alias of `Super`.
pub open spec fn modifier_of(tok: Seq<char>) -> Option<ChordModifier> {
    if tok == "Ctrl"@ {
        Some(ChordModifier::Ctrl)
    } else if tok == "Shift"@ {
        Some(ChordModifier::Shift)
    } else if tok == "Alt"@ {
        Some(ChordModifier::Alt)
    } else if tok == "Super"@ || tok == "Meta"@ {
        Some(ChordModifier::Super)
    } else {
        None
    }
}

/// A key token: nonempty and not the name of a modifier.
pub open spec fn valid_key(tok: Seq<char>) -> bool {
    tok.len() > 0 && modifier_of(tok) is None
}

/// One pass over the chord string: `tok` is the token read so far, `mods`
/// the modifiers before it.  A `+` closes the current token, which must name
/// a modifier; the last token is the key.
pub open spec fn chord_rec(s: Seq<char>, tok: Seq<char>, mods: Seq<ChordModifier>) -> Option<
    (Seq<ChordModifier>, Seq<char>),
>
    decreases s.len(),
{
    if s.len() == 0 {
        if valid_key(tok) {
            Some((mods, tok))
        } else {
            None
        }
    } else if s[0] == '+' {
        match modifier_of(tok) {
            Some(m) => chord_rec(s.drop_first(), Seq::empty(), mods.push(m)),
            None => None,
        }
    } else {
        chord_rec(s.drop_first(), tok.push(s[0]), mods)
    }
}

/// What a chord string parses to, if anything.
pub open spec fn chord_spec(s: Seq<char>) -> Option<(Seq<ChordModifier>, Seq<char>)> {
    chord_rec(s, Seq::empty(), Seq::empty())
}

/// The modifier a token names, if any.
fn modifier_of_token(tok: &str) -> (r: Option<ChordModifier>)
    ensures
        r == modifier_of(tok@),
{
    if str_eq(tok, "Ctrl") {
        Some(ChordModifier::Ctrl)
    } else if str_eq(tok, "Shift") {
        Some(ChordModifier::Shift)
    } else if str_eq(tok, "Alt") {
        Some(ChordModifier::Alt)
    } else if str_eq(tok, "Super") || str_eq(tok, "Meta") {
        Some(ChordModifier::Super)
    } else {
        None
    }
}

/// Parse a chord string.  A malformed string (an empty token, an unknown
/// modifier name, or a key that names a modifier) yields nothing.
pub fn parse_chord(s: &str) -> (r: Option<ShortcutChord>)
    ensures
        match r {
            Some(c) => chord_spec(s@) == Some((c.modifiers@, c.key@)),
            None => chord_spec(s@) is None,
        },
{
    let n = s.unicode_len();
    let mut tok = String::new();
    let mut mods: Vec<ChordModifier> = Vec::new();
    let mut i: usize = 0;
    proof {
        assert(s@.skip(0) =~= s@);
    }
    while i < n
        invariant
            i <= n,
            n == s@.len(),
            chord_spec(s@) == chord_rec(s@.skip(i as int), tok@, mods@),
        decreases n - i,
    {
        let c = s.get_char(i);
        proof {
            assert(s@.skip(i as int)[0] == s@[i as int]);
            assert(s@.skip(i as int).drop_first() =~= s@.skip(i as int + 1));
        }
        if c == '+' {
            match modifier_of_token(tok.as_str()) {
                Some(m) => {
                    mods.push(m);
                    tok = String::new();
                },
                None => {
                    return None;
                },
            }
        } else {
            push_char(&mut tok, c);
        }
        i = i + 1;
    }
    proof {
        assert(s@.skip(n as int) =~= Seq::<char>::empty());
    }
    if tok.unicode_len() == 0 {
        return None;
    }
    match modifier_of_token(tok.as_str()) {
        Some(_) => None,
        None => Some(ShortcutChord { modifiers: mods, key: tok }),
    }
}

} // verus!
