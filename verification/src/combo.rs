//! Parsing of key-combination strings.
//!
//! A combination is written `(Modifier "+")* Key`, where a modifier is one
//! of `Ctrl`, `Shift`, `Alt`, `Win`, `Super` (with `Win` and `Super`
//! naming the same flag) and the key is a letter `A`-`Z`, a digit `0`-`9`,
//! or a function key `F1`-`F12`. A string outside this grammar is not a
//! combination; callers skip such an entry rather than fail a whole load.
use vstd::prelude::*;
use vstd::slice::slice_subrange;

verus! {

/// The key at the end of a combination.
#[derive(Clone, Copy, Debug, PartialEq, Eq, Structural)]
pub enum Key {
    /// A letter key; the payload is its ASCII code, `A`-`Z`.
    Letter(u8),
    /// A digit key; the payload is its ASCII code, `0`-`9`.
    Digit(u8),
    /// A function key; the payload is its number, 1-12.
    Function(u8),
}

/// Which payloads denote a real key.
pub open spec fn key_wf(k: Key) -> bool {
    match k {
        Key::Letter(b) => 65 <= b <= 90,
        Key::Digit(b) => 48 <= b <= 57,
        Key::Function(n) => 1 <= n <= 12,
    }
}

/// A parsed key combination: modifier flags and the final key.
#[derive(Clone, Copy, Debug, PartialEq, Eq, Structural)]
pub struct Combo {
    pub ctrl: bool,
    pub shift: bool,
    pub alt: bool,
    /// The `Win` / `Super` modifier.
    pub meta: bool,
    pub key: Key,
}

pub open spec fn combo_wf(c: Combo) -> bool {
    key_wf(c.key)
}

/// One modifier token of the grammar.
#[derive(Clone, Copy, Debug, PartialEq, Eq, Structural)]
pub enum Modifier {
    Ctrl,
    Shift,
    Alt,
    Meta,
}

pub open spec fn ctrl_token() -> Seq<u8> {
    seq![67, 116, 114, 108]
}

pub open spec fn shift_token() -> Seq<u8> {
    seq![83, 104, 105, 102, 116]
}

pub open spec fn alt_token() -> Seq<u8> {
    seq![65, 108, 116]
}

pub open spec fn win_token() -> Seq<u8> {
    seq![87, 105, 110]
}

pub open spec fn super_token() -> Seq<u8> {
    seq![83, 117, 112, 101, 114]
}

/// Which modifier a token between `+` separators denotes, if any.
pub open spec fn spec_modifier_of_token(t: Seq<u8>) -> Option<Modifier> {
    if t == ctrl_token() {
        Some(Modifier::Ctrl)
    } else if t == shift_token() {
        Some(Modifier::Shift)
    } else if t == alt_token() {
        Some(Modifier::Alt)
    } else if t == win_token() || t == super_token() {
        Some(Modifier::Meta)
    } else {
        None
    }
}

/// Which key the final token denotes, if any.
pub open spec fn spec_key_of_token(t: Seq<u8>) -> Option<Key> {
    if t.len() == 1 && 65 <= t[0] <= 90 {
        Some(Key::Letter(t[0]))
    } else if t.len() == 1 && 48 <= t[0] <= 57 {
        Some(Key::Digit(t[0]))
    } else if t.len() == 2 && t[0] == 70 && 49 <= t[1] <= 57 {
        Some(Key::Function((t[1] - 48) as u8))
    } else if t.len() == 3 && t[0] == 70 && t[1] == 49 && 48 <= t[2] <= 50 {
        Some(Key::Function((10 + t[2] - 48) as u8))
    } else {
        None
    }
}

/// The rest of a combination string, read left to right: `tok` is the token
/// gathered so far, the four flags are the modifiers seen so far.
pub open spec fn spec_parse_combo_rest(
    s: Seq<u8>,
    tok: Seq<u8>,
    ctrl: bool,
    shift: bool,
    alt: bool,
    meta: bool,
) -> Option<Combo>
    decreases s.len(),
{
    if s.len() == 0 {
        match spec_key_of_token(tok) {
            Some(k) => Some(Combo { ctrl, shift, alt, meta, key: k }),
            None => None,
        }
    } else if s[0] == 43 {
        match spec_modifier_of_token(tok) {
            Some(m) => spec_parse_combo_rest(
                s.drop_first(),
                Seq::empty(),
                ctrl || m == Modifier::Ctrl,
                shift || m == Modifier::Shift,
                alt || m == Modifier::Alt,
                meta || m == Modifier::Meta,
            ),
            None => None,
        }
    } else {
        spec_parse_combo_rest(s.drop_first(), tok.push(s[0]), ctrl, shift, alt, meta)
    }
}

/// What a combination string denotes; `None` for a string outside the
/// grammar.
pub open spec fn spec_parse_combo(s: Seq<u8>) -> Option<Combo> {
    spec_parse_combo_rest(s, Seq::empty(), false, false, false, false)
}

fn modifier_of_token(t: &[u8]) -> (r: Option<Modifier>)
    ensures
        r == spec_modifier_of_token(t@),
{
    if t.len() == 4 && t[0] == 67 && t[1] == 116 && t[2] == 114 && t[3] == 108 {
        proof {
            assert(t@ =~= ctrl_token());
        }
        Some(Modifier::Ctrl)
    } else if t.len() == 5 && t[0] == 83 && t[1] == 104 && t[2] == 105 && t[3] == 102 && t[4]
        == 116 {
        proof {
            assert(t@ =~= shift_token());
        }
        Some(Modifier::Shift)
    } else if t.len() == 3 && t[0] == 65 && t[1] == 108 && t[2] == 116 {
        proof {
            assert(t@ =~= alt_token());
        }
        Some(Modifier::Alt)
    } else if t.len() == 3 && t[0] == 87 && t[1] == 105 && t[2] == 110 {
        proof {
            assert(t@ =~= win_token());
        }
        Some(Modifier::Meta)
    } else if t.len() == 5 && t[0] == 83 && t[1] == 117 && t[2] == 112 && t[3] == 101 && t[4]
        == 114 {
        proof {
            assert(t@ =~= super_token());
        }
        Some(Modifier::Meta)
    } else {
        None
    }
}

fn key_of_token(t: &[u8]) -> (r: Option<Key>)
    ensures
        r == spec_key_of_token(t@),
{
    if t.len() == 1 {
        let b = t[0];
        if 65 <= b && b <= 90 {
            Some(Key::Letter(b))
        } else if 48 <= b && b <= 57 {
            Some(Key::Digit(b))
        } else {
            None
        }
    } else if t.len() == 2 && t[0] == 70 {
        let b = t[1];
        if 49 <= b && b <= 57 {
            Some(Key::Function(b - 48))
        } else {
            None
        }
    } else if t.len() == 3 && t[0] == 70 && t[1] == 49 {
        let b = t[2];
        if 48 <= b && b <= 50 {
            Some(Key::Function(10 + (b - 48)))
        } else {
            None
        }
    } else {
        None
    }
}

/// Parse a combination string; every combination this returns is
/// well-formed, and a string outside the grammar yields `None`.
pub fn parse_combo(s: &[u8]) -> (r: Option<Combo>)
    ensures
        r == spec_parse_combo(s@),
        match r {
            Some(c) => combo_wf(c),
            None => true,
        },
{
    let mut i: usize = 0;
    let mut tok_start: usize = 0;
    let mut ctrl: bool = false;
    let mut shift: bool = false;
    let mut alt: bool = false;
    let mut meta: bool = false;
    proof {
        assert(s@.skip(0) =~= s@);
        assert(s@.subrange(0, 0) =~= Seq::<u8>::empty());
    }
    while i < s.len()
        invariant
            tok_start <= i <= s.len(),
            spec_parse_combo(s@) == spec_parse_combo_rest(
                s@.skip(i as int),
                s@.subrange(tok_start as int, i as int),
                ctrl,
                shift,
                alt,
                meta,
            ),
        decreases s.len() - i,
    {
        let b = s[i];
        proof {
            assert(s@.skip(i as int)[0] == s@[i as int]);
            assert(s@.skip(i as int).drop_first() =~= s@.skip(i as int + 1));
        }
        if b == 43 {
            let tok = slice_subrange(s, tok_start, i);
            match modifier_of_token(tok) {
                Some(m) => {
                    proof {
                        assert(s@.subrange(i as int + 1, i as int + 1) =~= Seq::<u8>::empty());
                    }
                    match m {
                        Modifier::Ctrl => {
                            ctrl = true;
                        },
                        Modifier::Shift => {
                            shift = true;
                        },
                        Modifier::Alt => {
                            alt = true;
                        },
                        Modifier::Meta => {
                            meta = true;
                        },
                    }
                    tok_start = i + 1;
                },
                None => {
                    return None;
                },
            }
        } else {
            proof {
                assert(s@.subrange(tok_start as int, i as int).push(s@[i as int]) =~= s@.subrange(
                    tok_start as int,
                    i as int + 1,
                ));
            }
        }
        i = i + 1;
    }
    proof {
        assert(s@.skip(i as int).len() == 0);
    }
    let tok = slice_subrange(s, tok_start, i);
    match key_of_token(tok) {
        Some(k) => Some(Combo { ctrl, shift, alt, meta, key: k }),
        None => None,
    }
}

} // verus!
