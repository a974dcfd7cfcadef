//! The session file codec: a JSON array of window objects, one per tracked
//! window, serialized and parsed here with a proof that parsing undoes
//! serialization.
//!
//! The grammar is the one the system itself writes: an array of objects
//! with the fields `id`, `app_id`, `workspace_id` and `is_focused`, in that
//! order, with whitespace tolerated between tokens, string escapes for
//! quote, backslash and control bytes, and `null` for a missing workspace.
//! A missing file and an empty (or all-whitespace) file are both the empty
//! snapshot; non-empty content that does not parse is a corrupt snapshot.

use vstd::prelude::*;
use vstd::arithmetic::div_mod::lemma_fundamental_div_mod;
use crate::SessionError;
use crate::snapshot::TrackedWindow;
use crate::snapshot::WinModel;
use crate::snapshot::win_model;
use crate::snapshot::snap_model;

verus! {

// ---------------------------------------------------------------------------
// Byte classes and literals
// ---------------------------------------------------------------------------

pub open spec fn is_ws_byte(b: u8) -> bool {
    b == 0x20 || b == 0x09 || b == 0x0a || b == 0x0d
}

pub open spec fn is_digit_byte(b: u8) -> bool {
    0x30 <= b && b <= 0x39
}

/// `true`
pub open spec fn lit_true() -> Seq<u8> {
    seq![0x74u8, 0x72u8, 0x75u8, 0x65u8]
}

/// `false`
pub open spec fn lit_false() -> Seq<u8> {
    seq![0x66u8, 0x61u8, 0x6cu8, 0x73u8, 0x65u8]
}

/// `null`
pub open spec fn lit_null() -> Seq<u8> {
    seq![0x6eu8, 0x75u8, 0x6cu8, 0x6cu8]
}

/// `"id"`
pub open spec fn key_id() -> Seq<u8> {
    seq![0x22u8, 0x69u8, 0x64u8, 0x22u8]
}

/// `"app_id"`
pub open spec fn key_app_id() -> Seq<u8> {
    seq![0x22u8, 0x61u8, 0x70u8, 0x70u8, 0x5fu8, 0x69u8, 0x64u8, 0x22u8]
}

/// `"workspace_id"`
pub open spec fn key_workspace_id() -> Seq<u8> {
    seq![
        0x22u8,
        0x77u8,
        0x6fu8,
        0x72u8,
        0x6bu8,
        0x73u8,
        0x70u8,
        0x61u8,
        0x63u8,
        0x65u8,
        0x5fu8,
        0x69u8,
        0x64u8,
        0x22u8,
    ]
}

/// `"is_focused"`
pub open spec fn key_is_focused() -> Seq<u8> {
    seq![
        0x22u8,
        0x69u8,
        0x73u8,
        0x5fu8,
        0x66u8,
        0x6fu8,
        0x63u8,
        0x75u8,
        0x73u8,
        0x65u8,
        0x64u8,
        0x22u8,
    ]
}

// ---------------------------------------------------------------------------
// The serializer, as a mathematical function
// ---------------------------------------------------------------------------

/// The decimal digits of `n`, most significant first.
pub open spec fn ser_u64(n: u64) -> Seq<u8>
    decreases n,
{
    if n < 10 {
        seq![(0x30 + n) as u8]
    } else {
        ser_u64((n / 10) as u64).push((0x30 + n % 10) as u8)
    }
}

/// The lowercase hex digit for a value below sixteen.
pub open spec fn hex_digit(d: u8) -> u8 {
    if d < 10 {
        (0x30 + d) as u8
    } else {
        (0x57 + d) as u8
    }
}

/// How one byte of string content is written: quote, backslash and the
/// common control bytes as two-character escapes, any other control byte as
/// a four-digit hex escape, anything else as itself.
pub open spec fn ser_byte(b: u8) -> Seq<u8> {
    if b == 0x22 {
        seq![0x5cu8, 0x22u8]
    } else if b == 0x5c {
        seq![0x5cu8, 0x5cu8]
    } else if b == 0x0a {
        seq![0x5cu8, 0x6eu8]
    } else if b == 0x09 {
        seq![0x5cu8, 0x74u8]
    } else if b == 0x0d {
        seq![0x5cu8, 0x72u8]
    } else if b < 0x20 {
        seq![0x5cu8, 0x75u8, 0x30u8, 0x30u8, hex_digit((b / 16) as u8), hex_digit((b % 16) as u8)]
    } else {
        seq![b]
    }
}

pub open spec fn ser_bytes(bs: Seq<u8>) -> Seq<u8>
    decreases bs.len(),
{
    if bs.len() == 0 {
        Seq::empty()
    } else {
        ser_byte(bs[0]) + ser_bytes(bs.drop_first())
    }
}

pub open spec fn ser_string(bs: Seq<u8>) -> Seq<u8> {
    seq![0x22u8] + ser_bytes(bs) + seq![0x22u8]
}

pub open spec fn ser_bool(b: bool) -> Seq<u8> {
    if b {
        lit_true()
    } else {
        lit_false()
    }
}

pub open spec fn ser_ws_ref(w: Option<u64>) -> Seq<u8> {
    match w {
        Some(n) => ser_u64(n),
        None => lit_null(),
    }
}

/// One window object.
pub open spec fn ser_window(m: WinModel) -> Seq<u8> {
    seq![0x7bu8] + key_id() + seq![0x3au8] + ser_u64(m.id) + seq![0x2cu8] + key_app_id() + seq![
        0x3au8,
    ] + ser_string(m.app_id) + seq![0x2cu8] + key_workspace_id() + seq![0x3au8] + ser_ws_ref(
        m.workspace_id,
    ) + seq![0x2cu8] + key_is_focused() + seq![0x3au8] + ser_bool(m.is_focused) + seq![0x7du8]
}

/// The objects, comma-separated.
pub open spec fn ser_items(ms: Seq<WinModel>) -> Seq<u8>
    decreases ms.len(),
{
    if ms.len() == 0 {
        Seq::empty()
    } else if ms.len() == 1 {
        ser_window(ms[0])
    } else {
        ser_window(ms[0]) + seq![0x2cu8] + ser_items(ms.drop_first())
    }
}

/// A whole snapshot: the array.
pub open spec fn spec_ser_snapshot(ms: Seq<WinModel>) -> Seq<u8> {
    seq![0x5bu8] + ser_items(ms) + seq![0x5du8]
}

// ---------------------------------------------------------------------------
// The parser, as a mathematical function
// ---------------------------------------------------------------------------

/// The first position at or after `i` holding a non-whitespace byte.
pub open spec fn skip_ws(s: Seq<u8>, i: int) -> int
    decreases s.len() - i,
{
    if 0 <= i && i < s.len() && is_ws_byte(s[i]) {
        skip_ws(s, i + 1)
    } else {
        i
    }
}

/// Position after `lit`, when `lit` stands at `i`.
pub open spec fn match_lit(s: Seq<u8>, i: int, lit: Seq<u8>) -> Option<int> {
    if 0 <= i && i + lit.len() <= s.len() && s.subrange(i, i + lit.len() as int) == lit {
        Some(i + lit.len() as int)
    } else {
        None
    }
}

/// Position after the single byte `b`, with leading whitespace skipped.
pub open spec fn p_sep(s: Seq<u8>, i: int, b: u8) -> Option<int> {
    let j = skip_ws(s, i);
    if 0 <= j && j < s.len() && s[j] == b {
        Some(j + 1)
    } else {
        None
    }
}

/// Position after a key literal, with leading whitespace skipped.
pub open spec fn p_key(s: Seq<u8>, i: int, key: Seq<u8>) -> Option<int> {
    match_lit(s, skip_ws(s, i), key)
}

/// A run of decimal digits folded into `acc`, rejecting overflow.
pub open spec fn p_digits(s: Seq<u8>, i: int, acc: u64) -> Option<(u64, int)>
    decreases s.len() - i,
{
    if 0 <= i && i < s.len() && is_digit_byte(s[i]) {
        let d = (s[i] - 0x30) as u64;
        if acc * 10 + d <= u64::MAX {
            p_digits(s, i + 1, (acc * 10 + d) as u64)
        } else {
            None
        }
    } else {
        Some((acc, i))
    }
}

/// A number: at least one digit.
pub open spec fn p_u64(s: Seq<u8>, i: int) -> Option<(u64, int)> {
    if 0 <= i && i < s.len() && is_digit_byte(s[i]) {
        p_digits(s, i, 0)
    } else {
        None
    }
}

/// The byte a two-character escape stands for.
pub open spec fn esc_byte(c: u8) -> Option<u8> {
    if c == 0x22 {
        Some(0x22u8)
    } else if c == 0x5c {
        Some(0x5cu8)
    } else if c == 0x2f {
        Some(0x2fu8)
    } else if c == 0x6e {
        Some(0x0au8)
    } else if c == 0x74 {
        Some(0x09u8)
    } else if c == 0x72 {
        Some(0x0du8)
    } else if c == 0x62 {
        Some(0x08u8)
    } else if c == 0x66 {
        Some(0x0cu8)
    } else {
        None
    }
}

/// The value of one hex digit.
pub open spec fn hex_val(c: u8) -> Option<u8> {
    if 0x30 <= c && c <= 0x39 {
        Some((c - 0x30) as u8)
    } else if 0x61 <= c && c <= 0x66 {
        Some((c - 0x57) as u8)
    } else if 0x41 <= c && c <= 0x46 {
        Some((c - 0x37) as u8)
    } else {
        None
    }
}

/// String content after the opening quote: raw bytes, escapes, and hex
/// escapes below 0x80, up to the closing quote. Raw control bytes are
/// rejected.
pub open spec fn p_strbody(s: Seq<u8>, i: int, acc: Seq<u8>) -> Option<(Seq<u8>, int)>
    decreases s.len() - i,
{
    if !(0 <= i && i < s.len()) {
        None
    } else if s[i] == 0x22 {
        Some((acc, i + 1))
    } else if s[i] == 0x5c {
        if i + 1 < s.len() {
            if s[i + 1] == 0x75 {
                if i + 5 < s.len() {
                    match (hex_val(s[i + 2]), hex_val(s[i + 3]), hex_val(s[i + 4]), hex_val(
                        s[i + 5],
                    )) {
                        (Some(h1), Some(h2), Some(h3), Some(h4)) => {
                            let v = h1 * 4096 + h2 * 256 + h3 * 16 + h4;
                            if v < 0x80 {
                                p_strbody(s, i + 6, acc.push(v as u8))
                            } else {
                                None
                            }
                        },
                        _ => None,
                    }
                } else {
                    None
                }
            } else {
                match esc_byte(s[i + 1]) {
                    Some(b) => p_strbody(s, i + 2, acc.push(b)),
                    None => None,
                }
            }
        } else {
            None
        }
    } else if s[i] >= 0x20 {
        p_strbody(s, i + 1, acc.push(s[i]))
    } else {
        None
    }
}

/// A quoted string.
pub open spec fn p_string(s: Seq<u8>, i: int) -> Option<(Seq<u8>, int)> {
    if 0 <= i && i < s.len() && s[i] == 0x22 {
        p_strbody(s, i + 1, Seq::empty())
    } else {
        None
    }
}

pub open spec fn p_bool(s: Seq<u8>, i: int) -> Option<(bool, int)> {
    match match_lit(s, i, lit_true()) {
        Some(j) => Some((true, j)),
        None => match match_lit(s, i, lit_false()) {
            Some(j) => Some((false, j)),
            None => None,
        },
    }
}

pub open spec fn p_ws_ref(s: Seq<u8>, i: int) -> Option<(Option<u64>, int)> {
    match match_lit(s, i, lit_null()) {
        Some(j) => Some((None, j)),
        None => match p_u64(s, i) {
            Some((n, j)) => Some((Some(n), j)),
            None => None,
        },
    }
}

/// One window object: the four fields, in order, separated as JSON asks.
pub open spec fn p_window(s: Seq<u8>, i: int) -> Option<(WinModel, int)> {
    match p_sep(s, i, 0x7b) {
        None => None,
        Some(i1) => match p_key(s, i1, key_id()) {
            None => None,
            Some(i2) => match p_sep(s, i2, 0x3a) {
                None => None,
                Some(i3) => match p_u64(s, skip_ws(s, i3)) {
                    None => None,
                    Some((idv, i4)) => match p_sep(s, i4, 0x2c) {
                        None => None,
                        Some(i5) => match p_key(s, i5, key_app_id()) {
                            None => None,
                            Some(i6) => match p_sep(s, i6, 0x3a) {
                                None => None,
                                Some(i7) => match p_string(s, skip_ws(s, i7)) {
                                    None => None,
                                    Some((app, i8)) => match p_sep(s, i8, 0x2c) {
                                        None => None,
                                        Some(i9) => match p_key(s, i9, key_workspace_id()) {
                                            None => None,
                                            Some(i10) => match p_sep(s, i10, 0x3a) {
                                                None => None,
                                                Some(i11) => match p_ws_ref(
                                                    s,
                                                    skip_ws(s, i11),
                                                ) {
                                                    None => None,
                                                    Some((ws, i12)) => match p_sep(s, i12, 0x2c) {
                                                        None => None,
                                                        Some(i13) => match p_key(
                                                            s,
                                                            i13,
                                                            key_is_focused(),
                                                        ) {
                                                            None => None,
                                                            Some(i14) => match p_sep(
                                                                s,
                                                                i14,
                                                                0x3a,
                                                            ) {
                                                                None => None,
                                                                Some(i15) => match p_bool(
                                                                    s,
                                                                    skip_ws(s, i15),
                                                                ) {
                                                                    None => None,
                                                                    Some((f, i16)) => match p_sep(
                                                                        s,
                                                                        i16,
                                                                        0x7d,
                                                                    ) {
                                                                        None => None,
                                                                        Some(i17) => Some(
                                                                            (
                                                                                WinModel {
                                                                                    id: idv,
                                                                                    app_id: app,
                                                                                    workspace_id: ws,
                                                                                    is_focused: f,
                                                                                },
                                                                                i17,
                                                                            ),
                                                                        ),
                                                                    },
                                                                },
                                                            },
                                                        },
                                                    },
                                                },
                                            },
                                        },
                                    },
                                },
                            },
                        },
                    },
                },
            },
        },
    }
}

/// The objects of a non-empty array, from the first object on, up to and
/// including the closing bracket.
pub open spec fn p_items(s: Seq<u8>, i: int, acc: Seq<WinModel>) -> Option<(Seq<WinModel>, int)>
    decreases s.len() - i,
    via p_items_dec
{
    match p_window(s, i) {
        None => None,
        Some((w, j)) => {
            let k = skip_ws(s, j);
            if 0 <= k && k < s.len() && s[k] == 0x2c {
                p_items(s, k + 1, acc.push(w))
            } else if 0 <= k && k < s.len() && s[k] == 0x5d {
                Some((acc.push(w), k + 1))
            } else {
                None
            }
        },
    }
}

#[via_fn]
proof fn p_items_dec(s: Seq<u8>, i: int, acc: Seq<WinModel>) {
    match p_window(s, i) {
        Some((w, j)) => {
            lemma_p_window_bounds(s, i);
            lemma_skip_ws_bounds(s, j);
        },
        None => {},
    }
}

/// A whole snapshot: the array, possibly empty, with nothing but
/// whitespace after it.
pub open spec fn spec_parse_snapshot(s: Seq<u8>) -> Option<Seq<WinModel>> {
    match p_sep(s, 0, 0x5b) {
        None => None,
        Some(i1) => {
            let j = skip_ws(s, i1);
            if 0 <= j && j < s.len() && s[j] == 0x5d {
                if skip_ws(s, j + 1) == s.len() {
                    Some(Seq::empty())
                } else {
                    None
                }
            } else {
                match p_items(s, i1, Seq::empty()) {
                    None => None,
                    Some((ms, k)) => if skip_ws(s, k) == s.len() {
                        Some(ms)
                    } else {
                        None
                    },
                }
            }
        },
    }
}

// ---------------------------------------------------------------------------
// Bounds of the parsing functions
// ---------------------------------------------------------------------------

pub proof fn lemma_skip_ws_bounds(s: Seq<u8>, i: int)
    requires
        0 <= i <= s.len(),
    ensures
        i <= skip_ws(s, i) <= s.len(),
        skip_ws(s, i) < s.len() ==> !is_ws_byte(s[skip_ws(s, i)]),
    decreases s.len() - i,
{
    if i < s.len() && is_ws_byte(s[i]) {
        lemma_skip_ws_bounds(s, i + 1);
    }
}

pub proof fn lemma_p_sep_bounds(s: Seq<u8>, i: int, b: u8)
    requires
        0 <= i <= s.len(),
    ensures
        p_sep(s, i, b) matches Some(j) ==> i < j <= s.len(),
{
    lemma_skip_ws_bounds(s, i);
}

pub proof fn lemma_p_key_bounds(s: Seq<u8>, i: int, key: Seq<u8>)
    requires
        0 <= i <= s.len(),
        key.len() >= 1,
    ensures
        p_key(s, i, key) matches Some(j) ==> i < j <= s.len(),
{
    lemma_skip_ws_bounds(s, i);
}

pub proof fn lemma_p_digits_bounds(s: Seq<u8>, i: int, acc: u64)
    requires
        0 <= i <= s.len(),
    ensures
        p_digits(s, i, acc) matches Some((v, j)) ==> i <= j <= s.len(),
    decreases s.len() - i,
{
    if 0 <= i && i < s.len() && is_digit_byte(s[i]) {
        let d = (s[i] - 0x30) as u64;
        if acc * 10 + d <= u64::MAX {
            lemma_p_digits_bounds(s, i + 1, (acc * 10 + d) as u64);
        }
    }
}

pub proof fn lemma_p_u64_bounds(s: Seq<u8>, i: int)
    requires
        0 <= i <= s.len(),
    ensures
        p_u64(s, i) matches Some((v, j)) ==> i < j <= s.len(),
{
    if 0 <= i && i < s.len() && is_digit_byte(s[i]) {
        lemma_p_digits_bounds(s, i + 1, (0 * 10 + (s[i] - 0x30)) as u64);
    }
}

pub proof fn lemma_p_strbody_bounds(s: Seq<u8>, i: int, acc: Seq<u8>)
    requires
        0 <= i <= s.len(),
    ensures
        p_strbody(s, i, acc) matches Some((bs, j)) ==> i < j <= s.len(),
    decreases s.len() - i,
{
    if 0 <= i && i < s.len() {
        if s[i] == 0x22 {
        } else if s[i] == 0x5c {
            if i + 1 < s.len() {
                if s[i + 1] == 0x75 {
                    if i + 5 < s.len() {
                        match (hex_val(s[i + 2]), hex_val(s[i + 3]), hex_val(s[i + 4]), hex_val(
                            s[i + 5],
                        )) {
                            (Some(h1), Some(h2), Some(h3), Some(h4)) => {
                                let v = h1 * 4096 + h2 * 256 + h3 * 16 + h4;
                                if v < 0x80 {
                                    lemma_p_strbody_bounds(s, i + 6, acc.push(v as u8));
                                }
                            },
                            _ => {},
                        }
                    }
                } else {
                    match esc_byte(s[i + 1]) {
                        Some(b) => {
                            lemma_p_strbody_bounds(s, i + 2, acc.push(b));
                        },
                        None => {},
                    }
                }
            }
        } else if s[i] >= 0x20 {
            lemma_p_strbody_bounds(s, i + 1, acc.push(s[i]));
        }
    }
}

pub proof fn lemma_p_string_bounds(s: Seq<u8>, i: int)
    requires
        0 <= i <= s.len(),
    ensures
        p_string(s, i) matches Some((bs, j)) ==> i < j <= s.len(),
{
    if 0 <= i && i < s.len() && s[i] == 0x22 {
        lemma_p_strbody_bounds(s, i + 1, Seq::empty());
    }
}

pub proof fn lemma_p_bool_bounds(s: Seq<u8>, i: int)
    requires
        0 <= i <= s.len(),
    ensures
        p_bool(s, i) matches Some((b, j)) ==> i < j <= s.len(),
{
}

pub proof fn lemma_p_ws_ref_bounds(s: Seq<u8>, i: int)
    requires
        0 <= i <= s.len(),
    ensures
        p_ws_ref(s, i) matches Some((w, j)) ==> i < j <= s.len(),
{
    lemma_p_u64_bounds(s, i);
}

pub proof fn lemma_p_window_bounds(s: Seq<u8>, i: int)
    requires
        0 <= i <= s.len(),
    ensures
        p_window(s, i) matches Some((m, j)) ==> i < j <= s.len(),
{
    if p_window(s, i) is Some {
        lemma_p_sep_bounds(s, i, 0x7b);
        let i1 = p_sep(s, i, 0x7b).unwrap();
        lemma_p_key_bounds(s, i1, key_id());
        let i2 = p_key(s, i1, key_id()).unwrap();
        lemma_p_sep_bounds(s, i2, 0x3a);
        let i3 = p_sep(s, i2, 0x3a).unwrap();
        lemma_skip_ws_bounds(s, i3);
        lemma_p_u64_bounds(s, skip_ws(s, i3));
        let i4 = p_u64(s, skip_ws(s, i3)).unwrap().1;
        lemma_p_sep_bounds(s, i4, 0x2c);
        let i5 = p_sep(s, i4, 0x2c).unwrap();
        lemma_p_key_bounds(s, i5, key_app_id());
        let i6 = p_key(s, i5, key_app_id()).unwrap();
        lemma_p_sep_bounds(s, i6, 0x3a);
        let i7 = p_sep(s, i6, 0x3a).unwrap();
        lemma_skip_ws_bounds(s, i7);
        lemma_p_string_bounds(s, skip_ws(s, i7));
        let i8 = p_string(s, skip_ws(s, i7)).unwrap().1;
        lemma_p_sep_bounds(s, i8, 0x2c);
        let i9 = p_sep(s, i8, 0x2c).unwrap();
        lemma_p_key_bounds(s, i9, key_workspace_id());
        let i10 = p_key(s, i9, key_workspace_id()).unwrap();
        lemma_p_sep_bounds(s, i10, 0x3a);
        let i11 = p_sep(s, i10, 0x3a).unwrap();
        lemma_skip_ws_bounds(s, i11);
        lemma_p_ws_ref_bounds(s, skip_ws(s, i11));
        let i12 = p_ws_ref(s, skip_ws(s, i11)).unwrap().1;
        lemma_p_sep_bounds(s, i12, 0x2c);
        let i13 = p_sep(s, i12, 0x2c).unwrap();
        lemma_p_key_bounds(s, i13, key_is_focused());
        let i14 = p_key(s, i13, key_is_focused()).unwrap();
        lemma_p_sep_bounds(s, i14, 0x3a);
        let i15 = p_sep(s, i14, 0x3a).unwrap();
        lemma_skip_ws_bounds(s, i15);
        lemma_p_bool_bounds(s, skip_ws(s, i15));
        let i16 = p_bool(s, skip_ws(s, i15)).unwrap().1;
        lemma_p_sep_bounds(s, i16, 0x7d);
    }
}

// ---------------------------------------------------------------------------
// The executable serializer
// ---------------------------------------------------------------------------

/// Append every byte of `lit`.
fn e_push_all(out: &mut Vec<u8>, lit: &Vec<u8>)
    ensures
        final(out)@ == old(out)@ + lit@,
{
    let mut k: usize = 0;
    proof {
        assert(out@ =~= old(out)@ + lit@.subrange(0, 0));
    }
    while k < lit.len()
        invariant
            k <= lit@.len(),
            out@ == old(out)@ + lit@.subrange(0, k as int),
        decreases lit@.len() - k,
    {
        out.push(lit[k]);
        k = k + 1;
        proof {
            assert(old(out)@ + lit@.subrange(0, k as int) =~= (old(out)@ + lit@.subrange(
                0,
                k as int - 1,
            )).push(lit@[k as int - 1]));
        }
    }
    proof {
        assert(lit@.subrange(0, lit@.len() as int) =~= lit@);
    }
}

/// Append the decimal digits of `n`.
fn e_ser_u64(n: u64, out: &mut Vec<u8>)
    ensures
        final(out)@ == old(out)@ + ser_u64(n),
    decreases n,
{
    if n < 10 {
        out.push(0x30 + (n as u8));
        proof {
            assert(out@ =~= old(out)@ + ser_u64(n));
        }
    } else {
        e_ser_u64(n / 10, out);
        out.push(0x30 + ((n % 10) as u8));
        proof {
            assert(out@ =~= old(out)@ + ser_u64(n));
        }
    }
}

/// Append the encoding of one byte of string content.
fn e_ser_byte(b: u8, out: &mut Vec<u8>)
    ensures
        final(out)@ == old(out)@ + ser_byte(b),
{
    if b == 0x22 {
        out.push(0x5c);
        out.push(0x22);
    } else if b == 0x5c {
        out.push(0x5c);
        out.push(0x5c);
    } else if b == 0x0a {
        out.push(0x5c);
        out.push(0x6e);
    } else if b == 0x09 {
        out.push(0x5c);
        out.push(0x74);
    } else if b == 0x0d {
        out.push(0x5c);
        out.push(0x72);
    } else if b < 0x20 {
        out.push(0x5c);
        out.push(0x75);
        out.push(0x30);
        out.push(0x30);
        let hi = b / 16;
        let lo = b % 16;
        out.push(if hi < 10 { 0x30 + hi } else { 0x57 + hi });
        out.push(if lo < 10 { 0x30 + lo } else { 0x57 + lo });
    } else {
        out.push(b);
    }
    proof {
        assert(out@ =~= old(out)@ + ser_byte(b));
    }
}

/// Append the encoding of string content, from index `k` on.
fn e_ser_bytes_from(bs: &Vec<u8>, k: usize, out: &mut Vec<u8>)
    requires
        k <= bs@.len(),
    ensures
        final(out)@ == old(out)@ + ser_bytes(bs@.skip(k as int)),
    decreases bs@.len() - k,
{
    if k < bs.len() {
        e_ser_byte(bs[k], out);
        e_ser_bytes_from(bs, k + 1, out);
        proof {
            assert(bs@.skip(k as int).drop_first() =~= bs@.skip(k as int + 1));
            assert(bs@.skip(k as int)[0] == bs@[k as int]);
            assert(out@ =~= old(out)@ + ser_bytes(bs@.skip(k as int)));
        }
    } else {
        proof {
            assert(bs@.skip(k as int).len() == 0);
            assert(out@ =~= old(out)@ + ser_bytes(bs@.skip(k as int)));
        }
    }
}

/// Append a quoted, escaped string.
fn e_ser_string(bs: &Vec<u8>, out: &mut Vec<u8>)
    ensures
        final(out)@ == old(out)@ + ser_string(bs@),
{
    out.push(0x22);
    e_ser_bytes_from(bs, 0, out);
    out.push(0x22);
    proof {
        assert(bs@.skip(0) =~= bs@);
        assert(out@ =~= old(out)@ + ser_string(bs@));
    }
}

/// Append one serialized window object.
#[verifier::rlimit(60)]
fn e_ser_window(w: &TrackedWindow, out: &mut Vec<u8>)
    ensures
        final(out)@ == old(out)@ + ser_window(win_model(*w)),
{
    let key_id_v: Vec<u8> = vec![0x22u8, 0x69, 0x64, 0x22];
    let key_app_v: Vec<u8> = vec![0x22u8, 0x61, 0x70, 0x70, 0x5f, 0x69, 0x64, 0x22];
    let key_ws_v: Vec<u8> = vec![
        0x22u8,
        0x77,
        0x6f,
        0x72,
        0x6b,
        0x73,
        0x70,
        0x61,
        0x63,
        0x65,
        0x5f,
        0x69,
        0x64,
        0x22,
    ];
    let key_foc_v: Vec<u8> = vec![0x22u8, 0x69, 0x73, 0x5f, 0x66, 0x6f, 0x63, 0x75, 0x73, 0x65, 0x64, 0x22];
    proof {
        assert(key_id_v@ =~= key_id());
        assert(key_app_v@ =~= key_app_id());
        assert(key_ws_v@ =~= key_workspace_id());
        assert(key_foc_v@ =~= key_is_focused());
    }
    out.push(0x7b);
    e_push_all(out, &key_id_v);
    out.push(0x3a);
    e_ser_u64(w.id, out);
    out.push(0x2c);
    e_push_all(out, &key_app_v);
    out.push(0x3a);
    e_ser_string(&w.app_id, out);
    out.push(0x2c);
    e_push_all(out, &key_ws_v);
    out.push(0x3a);
    match w.workspace_id {
        Some(n) => {
            e_ser_u64(n, out);
        },
        None => {
            let null_v: Vec<u8> = vec![0x6eu8, 0x75, 0x6c, 0x6c];
            proof {
                assert(null_v@ =~= lit_null());
            }
            e_push_all(out, &null_v);
        },
    }
    out.push(0x2c);
    e_push_all(out, &key_foc_v);
    out.push(0x3a);
    if w.is_focused {
        let true_v: Vec<u8> = vec![0x74u8, 0x72, 0x75, 0x65];
        proof {
            assert(true_v@ =~= lit_true());
        }
        e_push_all(out, &true_v);
    } else {
        let false_v: Vec<u8> = vec![0x66u8, 0x61, 0x6c, 0x73, 0x65];
        proof {
            assert(false_v@ =~= lit_false());
        }
        e_push_all(out, &false_v);
    }
    out.push(0x7d);
    proof {
        assert(out@ =~= old(out)@ + ser_window(win_model(*w)));
    }
}

/// Append the serialized objects of `snap`, from index `k` on.
fn e_ser_items_from(snap: &Vec<TrackedWindow>, k: usize, out: &mut Vec<u8>)
    requires
        k < snap@.len(),
    ensures
        final(out)@ == old(out)@ + ser_items(snap_model(snap@).skip(k as int)),
    decreases snap@.len() - k,
{
    let ghost tail = snap_model(snap@).skip(k as int);
    proof {
        assert(tail.len() == snap@.len() - k);
        assert(tail[0] == win_model(snap@[k as int]));
    }
    e_ser_window(&snap[k], out);
    if k < snap.len() - 1 {
        out.push(0x2c);
        e_ser_items_from(snap, k + 1, out);
        proof {
            assert(tail.drop_first() =~= snap_model(snap@).skip(k as int + 1));
            assert(out@ =~= old(out)@ + ser_items(tail));
        }
    } else {
        proof {
            assert(tail.len() == 1);
            assert(out@ =~= old(out)@ + ser_items(tail));
        }
    }
}

/// Serialize a snapshot to the session file bytes.
pub fn serialize_snapshot(snap: &Vec<TrackedWindow>) -> (out: Vec<u8>)
    ensures
        out@ == spec_ser_snapshot(snap_model(snap@)),
{
    let mut out: Vec<u8> = Vec::new();
    out.push(0x5b);
    if snap.len() > 0 {
        e_ser_items_from(snap, 0, &mut out);
    }
    out.push(0x5d);
    proof {
        if snap@.len() == 0 {
            assert(snap_model(snap@).len() == 0);
        } else {
            assert(snap_model(snap@).skip(0) =~= snap_model(snap@));
        }
        assert(out@ =~= spec_ser_snapshot(snap_model(snap@)));
    }
    out
}

// ---------------------------------------------------------------------------
// The executable parser
// ---------------------------------------------------------------------------

fn ws_at(s: &Vec<u8>, j: usize) -> (r: bool)
    requires
        j < s@.len(),
    ensures
        r == is_ws_byte(s@[j as int]),
{
    let b = s[j];
    b == 0x20 || b == 0x09 || b == 0x0a || b == 0x0d
}

fn digit_at(s: &Vec<u8>, j: usize) -> (r: bool)
    requires
        j < s@.len(),
    ensures
        r == is_digit_byte(s@[j as int]),
{
    let b = s[j];
    0x30 <= b && b <= 0x39
}

fn e_skip_ws(s: &Vec<u8>, i: usize) -> (j: usize)
    requires
        i <= s@.len(),
    ensures
        j as int == skip_ws(s@, i as int),
        i <= j <= s@.len(),
{
    let mut j = i;
    while j < s.len() && ws_at(s, j)
        invariant
            i <= j <= s@.len(),
            skip_ws(s@, i as int) == skip_ws(s@, j as int),
        decreases s@.len() - j,
    {
        j = j + 1;
    }
    j
}

fn e_lit(s: &Vec<u8>, i: usize, lit: &Vec<u8>) -> (r: Option<usize>)
    requires
        i <= s@.len(),
    ensures
        r matches Some(j) ==> match_lit(s@, i as int, lit@) == Some(j as int) && i <= j <= s@.len(),
        r is None ==> match_lit(s@, i as int, lit@) is None,
{
    if s.len() - i < lit.len() {
        return None;
    }
    let mut k: usize = 0;
    while k < lit.len()
        invariant
            k <= lit@.len(),
            i + lit@.len() <= s@.len(),
            s@.len() <= usize::MAX,
            forall|t: int| 0 <= t < k ==> s@[i + t] == lit@[t],
        decreases lit@.len() - k,
    {
        if s[i + k] != lit[k] {
            proof {
                assert(s@.subrange(i as int, i + lit@.len() as int)[k as int] == s@[i + k]);
            }
            return None;
        }
        k = k + 1;
    }
    proof {
        assert(s@.subrange(i as int, i + lit@.len() as int) =~= lit@);
    }
    Some(i + lit.len())
}

fn e_sep(s: &Vec<u8>, i: usize, b: u8) -> (r: Option<usize>)
    requires
        i <= s@.len(),
    ensures
        r matches Some(j) ==> p_sep(s@, i as int, b) == Some(j as int) && i <= j <= s@.len(),
        r is None ==> p_sep(s@, i as int, b) is None,
{
    let j = e_skip_ws(s, i);
    if j < s.len() && s[j] == b {
        Some(j + 1)
    } else {
        None
    }
}

fn e_key(s: &Vec<u8>, i: usize, key: &Vec<u8>) -> (r: Option<usize>)
    requires
        i <= s@.len(),
    ensures
        r matches Some(j) ==> p_key(s@, i as int, key@) == Some(j as int) && i <= j <= s@.len(),
        r is None ==> p_key(s@, i as int, key@) is None,
{
    let j = e_skip_ws(s, i);
    e_lit(s, j, key)
}

fn e_digits(s: &Vec<u8>, i: usize) -> (r: Option<(u64, usize)>)
    requires
        i <= s@.len(),
    ensures
        r matches Some(p) ==> p_digits(s@, i as int, 0) == Some((p.0, p.1 as int)) && i <= p.1
            <= s@.len(),
        r is None ==> p_digits(s@, i as int, 0) is None,
{
    let mut j = i;
    let mut acc: u64 = 0;
    while j < s.len() && digit_at(s, j)
        invariant
            i <= j <= s@.len(),
            p_digits(s@, i as int, 0) == p_digits(s@, j as int, acc),
        decreases s@.len() - j,
    {
        let d = s[j] - 0x30;
        proof {
            lemma_fundamental_div_mod((u64::MAX - d) as int, 10);
        }
        if acc > (u64::MAX - (d as u64)) / 10 {
            proof {
                assert(acc * 10 + d > u64::MAX);
            }
            return None;
        }
        proof {
            assert(acc * 10 + d <= u64::MAX);
        }
        acc = acc * 10 + (d as u64);
        j = j + 1;
    }
    Some((acc, j))
}

fn e_u64(s: &Vec<u8>, i: usize) -> (r: Option<(u64, usize)>)
    requires
        i <= s@.len(),
    ensures
        r matches Some(p) ==> p_u64(s@, i as int) == Some((p.0, p.1 as int)) && i < p.1 <= s@.len(),
        r is None ==> p_u64(s@, i as int) is None,
{
    if i < s.len() && digit_at(s, i) {
        let r = e_digits(s, i);
        proof {
            if p_u64(s@, i as int) is Some {
                lemma_p_u64_bounds(s@, i as int);
            }
        }
        r
    } else {
        None
    }
}

fn e_hex(c: u8) -> (r: Option<u8>)
    ensures
        r == hex_val(c),
{
    if 0x30 <= c && c <= 0x39 {
        Some(c - 0x30)
    } else if 0x61 <= c && c <= 0x66 {
        Some(c - 0x57)
    } else if 0x41 <= c && c <= 0x46 {
        Some(c - 0x37)
    } else {
        None
    }
}

fn e_esc(c: u8) -> (r: Option<u8>)
    ensures
        r == esc_byte(c),
{
    if c == 0x22 {
        Some(0x22)
    } else if c == 0x5c {
        Some(0x5c)
    } else if c == 0x2f {
        Some(0x2f)
    } else if c == 0x6e {
        Some(0x0a)
    } else if c == 0x74 {
        Some(0x09)
    } else if c == 0x72 {
        Some(0x0d)
    } else if c == 0x62 {
        Some(0x08)
    } else if c == 0x66 {
        Some(0x0c)
    } else {
        None
    }
}

fn e_strbody(s: &Vec<u8>, i: usize, acc: Vec<u8>) -> (r: Option<(Vec<u8>, usize)>)
    requires
        i <= s@.len(),
    ensures
        r matches Some(p) ==> (p_strbody(s@, i as int, acc@) matches Some(q) && q.0 == p.0@ && q.1
            == p.1 as int && p.1 <= s@.len()),
        r is None ==> p_strbody(s@, i as int, acc@) is None,
    decreases s@.len() - i,
{
    if i >= s.len() {
        return None;
    }
    let c = s[i];
    if c == 0x22 {
        Some((acc, i + 1))
    } else if c == 0x5c {
        if i + 1 >= s.len() {
            return None;
        }
        let c1 = s[i + 1];
        if c1 == 0x75 {
            if s.len() - i <= 5 {
                return None;
            }
            let h1 = e_hex(s[i + 2]);
            let h2 = e_hex(s[i + 3]);
            let h3 = e_hex(s[i + 4]);
            let h4 = e_hex(s[i + 5]);
            match (h1, h2, h3, h4) {
                (Some(a1), Some(a2), Some(a3), Some(a4)) => {
                    let v: u32 = (a1 as u32) * 4096 + (a2 as u32) * 256 + (a3 as u32) * 16 + (
                    a4 as u32);
                    if v < 0x80 {
                        let mut acc2 = acc;
                        acc2.push(v as u8);
                        e_strbody(s, i + 6, acc2)
                    } else {
                        None
                    }
                },
                _ => None,
            }
        } else {
            match e_esc(c1) {
                Some(b) => {
                    let mut acc2 = acc;
                    acc2.push(b);
                    e_strbody(s, i + 2, acc2)
                },
                None => None,
            }
        }
    } else if c >= 0x20 {
        let mut acc2 = acc;
        acc2.push(c);
        e_strbody(s, i + 1, acc2)
    } else {
        None
    }
}

fn e_string(s: &Vec<u8>, i: usize) -> (r: Option<(Vec<u8>, usize)>)
    requires
        i <= s@.len(),
    ensures
        r matches Some(p) ==> (p_string(s@, i as int) matches Some(q) && q.0 == p.0@ && q.1 == p.1
            as int && i < p.1 <= s@.len()),
        r is None ==> p_string(s@, i as int) is None,
{
    if i < s.len() && s[i] == 0x22 {
        let r = e_strbody(s, i + 1, Vec::new());
        proof {
            if p_string(s@, i as int) is Some {
                lemma_p_string_bounds(s@, i as int);
            }
        }
        r
    } else {
        None
    }
}

fn e_bool(s: &Vec<u8>, i: usize) -> (r: Option<(bool, usize)>)
    requires
        i <= s@.len(),
    ensures
        r matches Some(p) ==> p_bool(s@, i as int) == Some((p.0, p.1 as int)) && i <= p.1
            <= s@.len(),
        r is None ==> p_bool(s@, i as int) is None,
{
    let tv: Vec<u8> = vec![0x74u8, 0x72, 0x75, 0x65];
    let fv: Vec<u8> = vec![0x66u8, 0x61, 0x6c, 0x73, 0x65];
    proof {
        assert(tv@ =~= lit_true());
        assert(fv@ =~= lit_false());
    }
    match e_lit(s, i, &tv) {
        Some(j) => Some((true, j)),
        None => match e_lit(s, i, &fv) {
            Some(j) => Some((false, j)),
            None => None,
        },
    }
}

fn e_ws_ref(s: &Vec<u8>, i: usize) -> (r: Option<(Option<u64>, usize)>)
    requires
        i <= s@.len(),
    ensures
        r matches Some(p) ==> p_ws_ref(s@, i as int) == Some((p.0, p.1 as int)) && i <= p.1
            <= s@.len(),
        r is None ==> p_ws_ref(s@, i as int) is None,
{
    let nv: Vec<u8> = vec![0x6eu8, 0x75, 0x6c, 0x6c];
    proof {
        assert(nv@ =~= lit_null());
    }
    match e_lit(s, i, &nv) {
        Some(j) => Some((None, j)),
        None => match e_u64(s, i) {
            Some((n, j)) => Some((Some(n), j)),
            None => None,
        },
    }
}

#[verifier::rlimit(100)]
fn e_window(s: &Vec<u8>, i: usize) -> (r: Option<(TrackedWindow, usize)>)
    requires
        i <= s@.len(),
    ensures
        r matches Some(p) ==> (p_window(s@, i as int) matches Some(q) && q.0 == win_model(p.0)
            && q.1 == p.1 as int && i < p.1 <= s@.len()),
        r is None ==> p_window(s@, i as int) is None,
{
    let key_id_v: Vec<u8> = vec![0x22u8, 0x69, 0x64, 0x22];
    let key_app_v: Vec<u8> = vec![0x22u8, 0x61, 0x70, 0x70, 0x5f, 0x69, 0x64, 0x22];
    let key_ws_v: Vec<u8> = vec![
        0x22u8,
        0x77,
        0x6f,
        0x72,
        0x6b,
        0x73,
        0x70,
        0x61,
        0x63,
        0x65,
        0x5f,
        0x69,
        0x64,
        0x22,
    ];
    let key_foc_v: Vec<u8> = vec![0x22u8, 0x69, 0x73, 0x5f, 0x66, 0x6f, 0x63, 0x75, 0x73, 0x65, 0x64, 0x22];
    proof {
        assert(key_id_v@ =~= key_id());
        assert(key_app_v@ =~= key_app_id());
        assert(key_ws_v@ =~= key_workspace_id());
        assert(key_foc_v@ =~= key_is_focused());
    }
    let i1 = match e_sep(s, i, 0x7b) {
        Some(x) => x,
        None => {
            return None;
        },
    };
    let i2 = match e_key(s, i1, &key_id_v) {
        Some(x) => x,
        None => {
            return None;
        },
    };
    let i3 = match e_sep(s, i2, 0x3a) {
        Some(x) => x,
        None => {
            return None;
        },
    };
    let i3b = e_skip_ws(s, i3);
    let (idv, i4) = match e_u64(s, i3b) {
        Some(x) => x,
        None => {
            return None;
        },
    };
    let i5 = match e_sep(s, i4, 0x2c) {
        Some(x) => x,
        None => {
            return None;
        },
    };
    let i6 = match e_key(s, i5, &key_app_v) {
        Some(x) => x,
        None => {
            return None;
        },
    };
    let i7 = match e_sep(s, i6, 0x3a) {
        Some(x) => x,
        None => {
            return None;
        },
    };
    let i7b = e_skip_ws(s, i7);
    let (app, i8) = match e_string(s, i7b) {
        Some(x) => x,
        None => {
            return None;
        },
    };
    let i9 = match e_sep(s, i8, 0x2c) {
        Some(x) => x,
        None => {
            return None;
        },
    };
    let i10 = match e_key(s, i9, &key_ws_v) {
        Some(x) => x,
        None => {
            return None;
        },
    };
    let i11 = match e_sep(s, i10, 0x3a) {
        Some(x) => x,
        None => {
            return None;
        },
    };
    let i11b = e_skip_ws(s, i11);
    let (ws, i12) = match e_ws_ref(s, i11b) {
        Some(x) => x,
        None => {
            return None;
        },
    };
    let i13 = match e_sep(s, i12, 0x2c) {
        Some(x) => x,
        None => {
            return None;
        },
    };
    let i14 = match e_key(s, i13, &key_foc_v) {
        Some(x) => x,
        None => {
            return None;
        },
    };
    let i15 = match e_sep(s, i14, 0x3a) {
        Some(x) => x,
        None => {
            return None;
        },
    };
    let i15b = e_skip_ws(s, i15);
    let (f, i16) = match e_bool(s, i15b) {
        Some(x) => x,
        None => {
            return None;
        },
    };
    let i17 = match e_sep(s, i16, 0x7d) {
        Some(x) => x,
        None => {
            return None;
        },
    };
    let w = TrackedWindow { id: idv, app_id: app, workspace_id: ws, is_focused: f };
    proof {
        lemma_p_window_bounds(s@, i as int);
    }
    Some((w, i17))
}

fn e_items(s: &Vec<u8>, i: usize, acc: Vec<TrackedWindow>) -> (r: Option<(
    Vec<TrackedWindow>,
    usize,
)>)
    requires
        i <= s@.len(),
    ensures
        r matches Some(p) ==> (p_items(s@, i as int, snap_model(acc@)) matches Some(q) && q.0
            == snap_model(p.0@) && q.1 == p.1 as int && p.1 <= s@.len()),
        r is None ==> p_items(s@, i as int, snap_model(acc@)) is None,
    decreases s@.len() - i,
{
    let (w, j) = match e_window(s, i) {
        Some(x) => x,
        None => {
            return None;
        },
    };
    let k = e_skip_ws(s, j);
    let ghost old_acc = acc@;
    let mut acc2 = acc;
    acc2.push(w);
    proof {
        assert(snap_model(acc2@) =~= snap_model(old_acc).push(win_model(acc2@[acc2@.len() - 1])));
    }
    if k < s.len() && s[k] == 0x2c {
        e_items(s, k + 1, acc2)
    } else if k < s.len() && s[k] == 0x5d {
        Some((acc2, k + 1))
    } else {
        None
    }
}

/// Parse session file bytes into a snapshot; non-empty content that does
/// not follow the grammar is a corrupt snapshot.
pub fn parse_snapshot(s: &Vec<u8>) -> (r: Result<Vec<TrackedWindow>, SessionError>)
    ensures
        r matches Ok(v) ==> (spec_parse_snapshot(s@) matches Some(ms) && ms == snap_model(v@)),
        r is Err ==> spec_parse_snapshot(s@) is None && r == Err::<Vec<TrackedWindow>, SessionError>(
            SessionError::CorruptSnapshot,
        ),
{
    let i1 = match e_sep(s, 0, 0x5b) {
        Some(x) => x,
        None => {
            return Err(SessionError::CorruptSnapshot);
        },
    };
    let j = e_skip_ws(s, i1);
    if j < s.len() && s[j] == 0x5d {
        if e_skip_ws(s, j + 1) == s.len() {
            let v: Vec<TrackedWindow> = Vec::new();
            proof {
                assert(snap_model(v@) =~= Seq::<WinModel>::empty());
            }
            Ok(v)
        } else {
            Err(SessionError::CorruptSnapshot)
        }
    } else {
        let start: Vec<TrackedWindow> = Vec::new();
        proof {
            assert(snap_model(start@) =~= Seq::<WinModel>::empty());
        }
        let (v, k) = match e_items(s, i1, start) {
            Some(x) => x,
            None => {
                return Err(SessionError::CorruptSnapshot);
            },
        };
        if e_skip_ws(s, k) == s.len() {
            Ok(v)
        } else {
            Err(SessionError::CorruptSnapshot)
        }
    }
}

/// Whether the content is nothing but whitespace (an empty file counts).
pub open spec fn all_ws(s: Seq<u8>) -> bool {
    forall|k: int| 0 <= k < s.len() ==> is_ws_byte(#[trigger] s[k])
}

/// Load a snapshot from the session file's content, `None` standing for a
/// missing file. A missing, empty or all-whitespace file is the empty
/// snapshot; anything else must parse.
pub fn load_snapshot(content: Option<&Vec<u8>>) -> (r: Result<Vec<TrackedWindow>, SessionError>)
    ensures
        content is None ==> (r matches Ok(v) && v@.len() == 0),
        content matches Some(c) ==> (all_ws(c@) ==> (r matches Ok(v) && v@.len() == 0)),
        content matches Some(c) ==> (!all_ws(c@) ==> (match spec_parse_snapshot(c@) {
            Some(ms) => r matches Ok(v) && snap_model(v@) == ms,
            None => r == Err::<Vec<TrackedWindow>, SessionError>(SessionError::CorruptSnapshot),
        })),
{
    match content {
        None => Ok(Vec::new()),
        Some(c) => {
            let mut k: usize = 0;
            while k < c.len() && ws_at(c, k)
                invariant
                    k <= c@.len(),
                    forall|t: int| 0 <= t < k ==> is_ws_byte(#[trigger] c@[t]),
                decreases c@.len() - k,
            {
                k = k + 1;
            }
            if k == c.len() {
                Ok(Vec::new())
            } else {
                proof {
                    assert(!is_ws_byte(c@[k as int]));
                }
                parse_snapshot(c)
            }
        },
    }
}

// ---------------------------------------------------------------------------
// Round trip: parsing undoes serialization
// ---------------------------------------------------------------------------

/// When the suffix of `s` at `i` is `a + b`, the bytes of `a` stand at `i`
/// and the suffix after them is `b`.
proof fn lemma_suffix_split(s: Seq<u8>, i: int, a: Seq<u8>, b: Seq<u8>)
    requires
        0 <= i <= s.len(),
        s.subrange(i, s.len() as int) == a + b,
    ensures
        i + a.len() + b.len() == s.len(),
        s.subrange(i + a.len() as int, s.len() as int) == b,
        forall|t: int| 0 <= t < a.len() ==> s[i + t] == #[trigger] a[t],
        s.subrange(i, i + a.len() as int) == a,
{
    assert(s.subrange(i, s.len() as int).len() == a.len() + b.len());
    assert forall|t: int| 0 <= t < a.len() implies s[i + t] == #[trigger] a[t] by {
        assert(s.subrange(i, s.len() as int)[t] == s[i + t]);
        assert((a + b)[t] == a[t]);
    }
    assert(s.subrange(i + a.len() as int, s.len() as int) =~= b) by {
        assert forall|t: int| 0 <= t < b.len() implies s.subrange(
            i + a.len() as int,
            s.len() as int,
        )[t] == b[t] by {
            assert(s.subrange(i, s.len() as int)[a.len() + t] == s[i + a.len() + t]);
            assert((a + b)[a.len() + t] == b[t]);
        }
    }
    assert(s.subrange(i, i + a.len() as int) =~= a);
}

/// Ten to the `k`.
pub open spec fn pow10(k: nat) -> nat
    decreases k,
{
    if k == 0 {
        1
    } else {
        10 * pow10((k - 1) as nat)
    }
}

/// The accumulator after folding a digit run, digit by digit.
pub open spec fn fold_digits(ds: Seq<u8>, acc: int) -> int
    decreases ds.len(),
{
    if ds.len() == 0 {
        acc
    } else {
        fold_digits(ds.drop_first(), acc * 10 + (ds[0] - 0x30))
    }
}

proof fn lemma_fold_digits_mono(ds: Seq<u8>, acc: int)
    requires
        acc >= 0,
        forall|t: int| 0 <= t < ds.len() ==> is_digit_byte(#[trigger] ds[t]),
    ensures
        fold_digits(ds, acc) >= acc,
    decreases ds.len(),
{
    if ds.len() > 0 {
        assert(is_digit_byte(ds[0]));
        let acc2 = acc * 10 + (ds[0] - 0x30);
        assert(acc2 >= acc);
        assert(forall|t: int|
            0 <= t < ds.drop_first().len() ==> is_digit_byte(#[trigger] ds.drop_first()[t]));
        lemma_fold_digits_mono(ds.drop_first(), acc2);
    }
}

proof fn lemma_p_digits_run(s: Seq<u8>, i: int, j: int, acc: u64)
    requires
        0 <= i <= j <= s.len(),
        forall|t: int| i <= t < j ==> is_digit_byte(#[trigger] s[t]),
        j == s.len() || !is_digit_byte(s[j]),
        fold_digits(s.subrange(i, j), acc as int) <= u64::MAX,
    ensures
        p_digits(s, i, acc) == Some((fold_digits(s.subrange(i, j), acc as int) as u64, j)),
    decreases j - i,
{
    let region = s.subrange(i, j);
    if i == j {
        assert(region.len() == 0);
    } else {
        assert(is_digit_byte(s[i]));
        let d = (s[i] - 0x30) as u64;
        let acc2 = acc * 10 + d;
        assert(region[0] == s[i]);
        assert(region.drop_first() =~= s.subrange(i + 1, j));
        assert(fold_digits(region, acc as int) == fold_digits(
            s.subrange(i + 1, j),
            acc as int * 10 + d,
        ));
        assert(forall|t: int|
            0 <= t < s.subrange(i + 1, j).len() ==> is_digit_byte(
                #[trigger] s.subrange(i + 1, j)[t],
            ));
        lemma_fold_digits_mono(s.subrange(i + 1, j), acc as int * 10 + d);
        assert(acc2 <= u64::MAX);
        lemma_p_digits_run(s, i + 1, j, acc2 as u64);
    }
}

proof fn lemma_ser_u64_digits(n: u64)
    ensures
        ser_u64(n).len() >= 1,
        forall|t: int| 0 <= t < ser_u64(n).len() ==> is_digit_byte(#[trigger] ser_u64(n)[t]),
    decreases n,
{
    if n >= 10 {
        lemma_ser_u64_digits(n / 10);
    }
}

proof fn lemma_fold_append(a: Seq<u8>, b: Seq<u8>, acc: int)
    ensures
        fold_digits(a + b, acc) == fold_digits(b, fold_digits(a, acc)),
    decreases a.len(),
{
    if a.len() == 0 {
        assert(a + b =~= b);
    } else {
        assert((a + b)[0] == a[0]);
        assert((a + b).drop_first() =~= a.drop_first() + b);
        lemma_fold_append(a.drop_first(), b, acc * 10 + (a[0] - 0x30));
    }
}

proof fn lemma_fold_ser(n: u64, acc: int)
    ensures
        fold_digits(ser_u64(n), acc) == acc * pow10(ser_u64(n).len()) + n,
    decreases n,
{
    if n < 10 {
        let one = seq![(0x30 + n) as u8];
        assert(ser_u64(n) == one);
        assert(one[0] == (0x30 + n) as u8);
        assert(one.drop_first() =~= Seq::<u8>::empty());
        assert(fold_digits(one, acc) == fold_digits(one.drop_first(), acc * 10 + (one[0] - 0x30)));
        assert(fold_digits(ser_u64(n), acc) == acc * 10 + n);
        assert(pow10(0) == 1);
        assert(pow10(1) == 10);
    } else {
        let hd = ser_u64((n / 10) as u64);
        let d = (0x30 + n % 10) as u8;
        assert(ser_u64(n) =~= hd + seq![d]);
        lemma_fold_append(hd, seq![d], acc);
        lemma_fold_ser((n / 10) as u64, acc);
        let f = fold_digits(hd, acc);
        assert(seq![d][0] == d);
        assert(seq![d].drop_first() =~= Seq::<u8>::empty());
        assert(fold_digits(seq![d], f) == fold_digits(seq![d].drop_first(), f * 10 + (
        seq![d][0] - 0x30)));
        assert(fold_digits(seq![d], f) == f * 10 + (d - 0x30));
        assert(f == acc * pow10(hd.len()) + n / 10);
        assert(ser_u64(n).len() == hd.len() + 1);
        assert(pow10(hd.len() + 1) == 10 * pow10(hd.len()));
        assert((acc * pow10(hd.len()) + n / 10) * 10 + (n % 10) == acc * (10 * pow10(hd.len()))
            + ((n / 10) * 10 + n % 10)) by (nonlinear_arith);
        lemma_fundamental_div_mod(n as int, 10);
    }
}

proof fn lemma_p_u64_at(s: Seq<u8>, i: int, n: u64, rest: Seq<u8>)
    requires
        0 <= i <= s.len(),
        s.subrange(i, s.len() as int) == ser_u64(n) + rest,
        rest.len() == 0 || !is_digit_byte(rest[0]),
    ensures
        p_u64(s, i) == Some((n, i + ser_u64(n).len() as int)),
{
    lemma_ser_u64_digits(n);
    lemma_suffix_split(s, i, ser_u64(n), rest);
    let j = i + ser_u64(n).len() as int;
    assert forall|t: int| i <= t < j implies is_digit_byte(#[trigger] s[t]) by {
        assert(s[i + (t - i)] == ser_u64(n)[t - i]);
    }
    if j < s.len() {
        assert(s.subrange(j, s.len() as int)[0] == rest[0]);
        assert(!is_digit_byte(s[j]));
    }
    lemma_fold_ser(n, 0);
    assert(0 * pow10(ser_u64(n).len()) == 0) by (nonlinear_arith);
    assert(fold_digits(ser_u64(n), 0) == n);
    lemma_p_digits_run(s, i, j, 0);
    assert(s[i] == ser_u64(n)[0]);
}

proof fn lemma_hex_digit_val(d: u8)
    requires
        d < 16,
    ensures
        hex_val(hex_digit(d)) == Some(d),
{
}

proof fn lemma_p_strbody_at(s: Seq<u8>, i: int, bs: Seq<u8>, acc: Seq<u8>, rest: Seq<u8>)
    requires
        0 <= i <= s.len(),
        s.subrange(i, s.len() as int) == ser_bytes(bs) + seq![0x22u8] + rest,
    ensures
        p_strbody(s, i, acc) == Some((acc + bs, i + ser_bytes(bs).len() + 1)),
    decreases bs.len(),
{
    if bs.len() == 0 {
        assert(ser_bytes(bs).len() == 0);
        assert(ser_bytes(bs) + seq![0x22u8] + rest =~= seq![0x22u8] + rest);
        lemma_suffix_split(s, i, seq![0x22u8], rest);
        assert(seq![0x22u8][0] == 0x22u8);
        assert(s[i] == 0x22);
        assert(acc + bs =~= acc);
    } else {
        let b = bs[0];
        let tail = bs.drop_first();
        let sb = ser_byte(b);
        let r2 = ser_bytes(tail) + seq![0x22u8] + rest;
        assert(ser_bytes(bs) == sb + ser_bytes(tail));
        assert(ser_bytes(bs) + seq![0x22u8] + rest =~= sb + r2);
        lemma_suffix_split(s, i, sb, r2);
        let i2 = i + sb.len() as int;
        assert(s.subrange(i2, s.len() as int) == r2);
        assert(acc.push(b) + tail =~= acc + bs);
        if b == 0x22 || b == 0x5c || b == 0x0a || b == 0x09 || b == 0x0d {
            assert(sb.len() == 2);
            assert(sb[0] == 0x5cu8);
            assert(s[i + 0] == sb[0]);
            assert(s[i + 1] == sb[1]);
            assert(esc_byte(sb[1]) == Some(b));
            lemma_p_strbody_at(s, i2, tail, acc.push(b), rest);
        } else if b < 0x20 {
            assert(sb.len() == 6);
            assert(sb[0] == 0x5cu8 && sb[1] == 0x75u8 && sb[2] == 0x30u8 && sb[3] == 0x30u8
                && sb[4] == hex_digit((b / 16) as u8) && sb[5] == hex_digit((b % 16) as u8));
            assert(s[i + 0] == sb[0]);
            assert(s[i + 1] == sb[1]);
            assert(s[i + 2] == sb[2]);
            assert(s[i + 3] == sb[3]);
            assert(s[i + 4] == sb[4]);
            assert(s[i + 5] == sb[5]);
            lemma_hex_digit_val((b / 16) as u8);
            lemma_hex_digit_val((b % 16) as u8);
            assert(hex_val(s[i + 2]) == Some(0u8));
            assert(hex_val(s[i + 3]) == Some(0u8));
            let h3 = (b / 16) as u8;
            let h4 = (b % 16) as u8;
            lemma_fundamental_div_mod(b as int, 16);
            assert(0 * 4096 + 0 * 256 + h3 * 16 + h4 == b);
            lemma_p_strbody_at(s, i2, tail, acc.push(b), rest);
        } else {
            assert(sb.len() == 1);
            assert(sb[0] == b);
            assert(s[i + 0] == sb[0]);
            assert(b != 0x22 && b != 0x5c && b >= 0x20);
            lemma_p_strbody_at(s, i2, tail, acc.push(b), rest);
        }
    }
}

proof fn lemma_p_string_at(s: Seq<u8>, i: int, bs: Seq<u8>, rest: Seq<u8>)
    requires
        0 <= i <= s.len(),
        s.subrange(i, s.len() as int) == ser_string(bs) + rest,
    ensures
        p_string(s, i) == Some((bs, i + ser_string(bs).len() as int)),
{
    let r2 = ser_bytes(bs) + seq![0x22u8] + rest;
    assert(ser_string(bs) + rest =~= seq![0x22u8] + r2);
    lemma_suffix_split(s, i, seq![0x22u8], r2);
    assert(seq![0x22u8][0] == 0x22u8);
    assert(s[i + 0] == seq![0x22u8][0]);
    assert(s[i] == 0x22);
    lemma_p_strbody_at(s, i + 1, bs, Seq::empty(), rest);
    assert(Seq::<u8>::empty() + bs =~= bs);
}

proof fn lemma_p_bool_at(s: Seq<u8>, i: int, b: bool, rest: Seq<u8>)
    requires
        0 <= i <= s.len(),
        s.subrange(i, s.len() as int) == ser_bool(b) + rest,
    ensures
        p_bool(s, i) == Some((b, i + ser_bool(b).len() as int)),
{
    lemma_suffix_split(s, i, ser_bool(b), rest);
    if b {
        assert(match_lit(s, i, lit_true()) == Some(i + 4));
    } else {
        if match_lit(s, i, lit_true()) is Some {
            assert(s.subrange(i, i + 4) == lit_true());
            assert(s.subrange(i, i + 4)[0] == s[i]);
            assert(lit_true()[0] == 0x74u8);
            assert(lit_false()[0] == 0x66u8);
            assert(s.subrange(i, i + 5) == lit_false());
            assert(s.subrange(i, i + 5)[0] == s[i]);
            assert(false);
        }
        assert(match_lit(s, i, lit_false()) == Some(i + 5));
    }
}

proof fn lemma_p_ws_ref_at(s: Seq<u8>, i: int, w: Option<u64>, rest: Seq<u8>)
    requires
        0 <= i <= s.len(),
        s.subrange(i, s.len() as int) == ser_ws_ref(w) + rest,
        rest.len() == 0 || !is_digit_byte(rest[0]),
    ensures
        p_ws_ref(s, i) == Some((w, i + ser_ws_ref(w).len() as int)),
{
    lemma_suffix_split(s, i, ser_ws_ref(w), rest);
    match w {
        None => {
            assert(match_lit(s, i, lit_null()) == Some(i + 4));
        },
        Some(n) => {
            lemma_ser_u64_digits(n);
            assert(s[i + 0] == ser_u64(n)[0]);
            assert(is_digit_byte(s[i]));
            if match_lit(s, i, lit_null()) is Some {
                assert(s.subrange(i, i + 4) == lit_null());
                assert(s.subrange(i, i + 4)[0] == s[i]);
                assert(lit_null()[0] == 0x6eu8);
                assert(false);
            }
            lemma_p_u64_at(s, i, n, rest);
        },
    }
}

/// The serialized form of a window object from its third field on,
/// followed by `rest`.
spec fn ser_window_tail(m: WinModel, rest: Seq<u8>) -> Seq<u8> {
    seq![0x2cu8] + key_workspace_id() + seq![0x3au8] + ser_ws_ref(m.workspace_id) + seq![0x2cu8]
        + key_is_focused() + seq![0x3au8] + ser_bool(m.is_focused) + seq![0x7du8] + rest
}

#[verifier::rlimit(100)]
proof fn lemma_p_window_first(s: Seq<u8>, i: int, m: WinModel, rest: Seq<u8>)
    requires
        0 <= i <= s.len(),
        s.subrange(i, s.len() as int) == ser_window(m) + rest,
    ensures
        p_sep(s, i, 0x7b) == Some(i + 1),
        p_key(s, i + 1, key_id()) == Some(i + 5),
        p_sep(s, i + 5, 0x3a) == Some(i + 6),
        skip_ws(s, i + 6) == i + 6,
        p_u64(s, i + 6) == Some((m.id, i + 6 + ser_u64(m.id).len() as int)),
        p_sep(s, i + 6 + ser_u64(m.id).len() as int, 0x2c) == Some(
            i + 7 + ser_u64(m.id).len() as int,
        ),
        p_key(s, i + 7 + ser_u64(m.id).len() as int, key_app_id()) == Some(
            i + 15 + ser_u64(m.id).len() as int,
        ),
        p_sep(s, i + 15 + ser_u64(m.id).len() as int, 0x3a) == Some(
            i + 16 + ser_u64(m.id).len() as int,
        ),
        skip_ws(s, i + 16 + ser_u64(m.id).len() as int) == i + 16 + ser_u64(m.id).len() as int,
        p_string(s, i + 16 + ser_u64(m.id).len() as int) == Some(
            (m.app_id, i + 16 + ser_u64(m.id).len() + ser_string(m.app_id).len()),
        ),
        s.subrange(
            i + 16 + ser_u64(m.id).len() + ser_string(m.app_id).len(),
            s.len() as int,
        ) == ser_window_tail(m, rest),
        i + 16 + ser_u64(m.id).len() + ser_string(m.app_id).len() <= s.len(),
{
    let r8 = ser_window_tail(m, rest);
    let r7 = ser_string(m.app_id) + r8;
    let r6 = seq![0x3au8] + r7;
    let r5 = key_app_id() + r6;
    let r4 = seq![0x2cu8] + r5;
    let r3 = ser_u64(m.id) + r4;
    let r2 = seq![0x3au8] + r3;
    let r1 = key_id() + r2;
    assert(ser_window(m) + rest =~= seq![0x7bu8] + r1) by {
    }
    lemma_suffix_split(s, i, seq![0x7bu8], r1);
    assert(p_sep(s, i, 0x7b) == Some(i + 1)) by {
        assert(seq![0x7bu8][0] == 0x7bu8);
        assert(s[i + 0] == 0x7bu8);
    }
    let c1 = i + 1;
    lemma_suffix_split(s, c1, key_id(), r2);
    assert(p_key(s, c1, key_id()) == Some(c1 + 4)) by {
        assert(key_id()[0] == 0x22u8);
        assert(s[c1 + 0] == 0x22u8);
    }
    let c2 = c1 + 4;
    lemma_suffix_split(s, c2, seq![0x3au8], r3);
    assert(p_sep(s, c2, 0x3a) == Some(c2 + 1)) by {
        assert(seq![0x3au8][0] == 0x3au8);
        assert(s[c2 + 0] == 0x3au8);
    }
    let c3 = c2 + 1;
    lemma_ser_u64_digits(m.id);
    lemma_suffix_split(s, c3, ser_u64(m.id), r4);
    assert(skip_ws(s, c3) == c3) by {
        assert(s[c3 + 0] == ser_u64(m.id)[0]);
        assert(is_digit_byte(s[c3]));
    }
    assert(r4[0] == 0x2cu8) by {
        assert(seq![0x2cu8][0] == 0x2cu8);
    }
    lemma_p_u64_at(s, c3, m.id, r4);
    let c4 = c3 + ser_u64(m.id).len() as int;
    lemma_suffix_split(s, c4, seq![0x2cu8], r5);
    assert(p_sep(s, c4, 0x2c) == Some(c4 + 1)) by {
        assert(seq![0x2cu8][0] == 0x2cu8);
        assert(s[c4 + 0] == 0x2cu8);
    }
    let c5 = c4 + 1;
    lemma_suffix_split(s, c5, key_app_id(), r6);
    assert(p_key(s, c5, key_app_id()) == Some(c5 + 8)) by {
        assert(key_app_id()[0] == 0x22u8);
        assert(s[c5 + 0] == 0x22u8);
    }
    let c6 = c5 + 8;
    lemma_suffix_split(s, c6, seq![0x3au8], r7);
    assert(p_sep(s, c6, 0x3a) == Some(c6 + 1)) by {
        assert(seq![0x3au8][0] == 0x3au8);
        assert(s[c6 + 0] == 0x3au8);
    }
    let c7 = c6 + 1;
    lemma_suffix_split(s, c7, ser_string(m.app_id), r8);
    assert(skip_ws(s, c7) == c7) by {
        assert(ser_string(m.app_id)[0] == 0x22u8);
        assert(s[c7 + 0] == 0x22u8);
    }
    lemma_p_string_at(s, c7, m.app_id, r8);
    lemma_suffix_split(s, c7, ser_string(m.app_id), r8);
}

#[verifier::rlimit(100)]
proof fn lemma_p_window_second(s: Seq<u8>, j: int, m: WinModel, rest: Seq<u8>)
    requires
        0 <= j <= s.len(),
        s.subrange(j, s.len() as int) == ser_window_tail(m, rest),
    ensures
        p_sep(s, j, 0x2c) == Some(j + 1),
        p_key(s, j + 1, key_workspace_id()) == Some(j + 15),
        p_sep(s, j + 15, 0x3a) == Some(j + 16),
        skip_ws(s, j + 16) == j + 16,
        p_ws_ref(s, j + 16) == Some(
            (m.workspace_id, j + 16 + ser_ws_ref(m.workspace_id).len() as int),
        ),
        p_sep(s, j + 16 + ser_ws_ref(m.workspace_id).len() as int, 0x2c) == Some(
            j + 17 + ser_ws_ref(m.workspace_id).len() as int,
        ),
        p_key(s, j + 17 + ser_ws_ref(m.workspace_id).len() as int, key_is_focused()) == Some(
            j + 29 + ser_ws_ref(m.workspace_id).len() as int,
        ),
        p_sep(s, j + 29 + ser_ws_ref(m.workspace_id).len() as int, 0x3a) == Some(
            j + 30 + ser_ws_ref(m.workspace_id).len() as int,
        ),
        skip_ws(s, j + 30 + ser_ws_ref(m.workspace_id).len() as int) == j + 30 + ser_ws_ref(
            m.workspace_id,
        ).len() as int,
        p_bool(s, j + 30 + ser_ws_ref(m.workspace_id).len() as int) == Some(
            (
                m.is_focused,
                j + 30 + ser_ws_ref(m.workspace_id).len() + ser_bool(m.is_focused).len(),
            ),
        ),
        p_sep(
            s,
            j + 30 + ser_ws_ref(m.workspace_id).len() + ser_bool(m.is_focused).len(),
            0x7d,
        ) == Some(j + 31 + ser_ws_ref(m.workspace_id).len() + ser_bool(m.is_focused).len()),
        j + 31 + ser_ws_ref(m.workspace_id).len() + ser_bool(m.is_focused).len() == j
            + ser_window_tail(m, rest).len() - rest.len(),
{
    let r17 = rest;
    let r16 = seq![0x7du8] + r17;
    let r15 = ser_bool(m.is_focused) + r16;
    let r14 = seq![0x3au8] + r15;
    let r13 = key_is_focused() + r14;
    let r12 = seq![0x2cu8] + r13;
    let r11 = ser_ws_ref(m.workspace_id) + r12;
    let r10 = seq![0x3au8] + r11;
    let r9 = key_workspace_id() + r10;
    assert(ser_window_tail(m, rest) =~= seq![0x2cu8] + r9) by {
    }
    let c8 = j;
    lemma_suffix_split(s, c8, seq![0x2cu8], r9);
    assert(p_sep(s, c8, 0x2c) == Some(c8 + 1)) by {
        assert(seq![0x2cu8][0] == 0x2cu8);
        assert(s[c8 + 0] == 0x2cu8);
    }
    let c9 = c8 + 1;
    lemma_suffix_split(s, c9, key_workspace_id(), r10);
    assert(p_key(s, c9, key_workspace_id()) == Some(c9 + 14)) by {
        assert(key_workspace_id()[0] == 0x22u8);
        assert(s[c9 + 0] == 0x22u8);
    }
    let c10 = c9 + 14;
    lemma_suffix_split(s, c10, seq![0x3au8], r11);
    assert(p_sep(s, c10, 0x3a) == Some(c10 + 1)) by {
        assert(seq![0x3au8][0] == 0x3au8);
        assert(s[c10 + 0] == 0x3au8);
    }
    let c11 = c10 + 1;
    lemma_suffix_split(s, c11, ser_ws_ref(m.workspace_id), r12);
    assert(skip_ws(s, c11) == c11) by {
        assert(s[c11 + 0] == ser_ws_ref(m.workspace_id)[0]);
        match m.workspace_id {
            Some(n) => {
                lemma_ser_u64_digits(n);
                assert(is_digit_byte(s[c11]));
            },
            None => {
                assert(lit_null()[0] == 0x6eu8);
                assert(s[c11] == 0x6eu8);
            },
        }
        assert(!is_ws_byte(s[c11]));
    }
    assert(r12[0] == 0x2cu8) by {
        assert(seq![0x2cu8][0] == 0x2cu8);
    }
    lemma_p_ws_ref_at(s, c11, m.workspace_id, r12);
    let c12 = c11 + ser_ws_ref(m.workspace_id).len() as int;
    lemma_suffix_split(s, c12, seq![0x2cu8], r13);
    assert(p_sep(s, c12, 0x2c) == Some(c12 + 1)) by {
        assert(seq![0x2cu8][0] == 0x2cu8);
        assert(s[c12 + 0] == 0x2cu8);
    }
    let c13 = c12 + 1;
    lemma_suffix_split(s, c13, key_is_focused(), r14);
    assert(p_key(s, c13, key_is_focused()) == Some(c13 + 12)) by {
        assert(key_is_focused()[0] == 0x22u8);
        assert(s[c13 + 0] == 0x22u8);
    }
    let c14 = c13 + 12;
    lemma_suffix_split(s, c14, seq![0x3au8], r15);
    assert(p_sep(s, c14, 0x3a) == Some(c14 + 1)) by {
        assert(seq![0x3au8][0] == 0x3au8);
        assert(s[c14 + 0] == 0x3au8);
    }
    let c15 = c14 + 1;
    lemma_suffix_split(s, c15, ser_bool(m.is_focused), r16);
    assert(skip_ws(s, c15) == c15) by {
        assert(s[c15 + 0] == ser_bool(m.is_focused)[0]);
        if m.is_focused {
            assert(lit_true()[0] == 0x74u8);
        } else {
            assert(lit_false()[0] == 0x66u8);
        }
        assert(!is_ws_byte(s[c15]));
    }
    lemma_p_bool_at(s, c15, m.is_focused, r16);
    let c16 = c15 + ser_bool(m.is_focused).len() as int;
    lemma_suffix_split(s, c16, seq![0x7du8], r17);
    assert(p_sep(s, c16, 0x7d) == Some(c16 + 1)) by {
        assert(seq![0x7du8][0] == 0x7du8);
        assert(s[c16 + 0] == 0x7du8);
    }
}

#[verifier::rlimit(100)]
proof fn lemma_p_window_at(s: Seq<u8>, i: int, m: WinModel, rest: Seq<u8>)
    requires
        0 <= i <= s.len(),
        s.subrange(i, s.len() as int) == ser_window(m) + rest,
    ensures
        p_window(s, i) == Some((m, i + ser_window(m).len() as int)),
{
    lemma_p_window_first(s, i, m, rest);
    let c8 = i + 16 + ser_u64(m.id).len() + ser_string(m.app_id).len();
    lemma_p_window_second(s, c8, m, rest);
    let c17 = c8 + 31 + ser_ws_ref(m.workspace_id).len() + ser_bool(m.is_focused).len();
    assert(c17 == i + ser_window(m).len() as int) by {
        assert(ser_window(m).len() == 1 + key_id().len() + 1 + ser_u64(m.id).len() + 1
            + key_app_id().len() + 1 + ser_string(m.app_id).len() + 1 + key_workspace_id().len()
            + 1 + ser_ws_ref(m.workspace_id).len() + 1 + key_is_focused().len() + 1 + ser_bool(
            m.is_focused,
        ).len() + 1);
    }
    assert(p_window(s, i) == Some((m, c17)));
}

proof fn lemma_p_items_at(s: Seq<u8>, i: int, ms: Seq<WinModel>, acc: Seq<WinModel>, rest: Seq<u8>)
    requires
        0 <= i <= s.len(),
        ms.len() >= 1,
        s.subrange(i, s.len() as int) == ser_items(ms) + seq![0x5du8] + rest,
    ensures
        p_items(s, i, acc) == Some((acc + ms, i + ser_items(ms).len() + 1)),
    decreases ms.len(),
{
    if ms.len() == 1 {
        assert(ser_items(ms) == ser_window(ms[0]));
        let r1 = seq![0x5du8] + rest;
        assert(ser_items(ms) + seq![0x5du8] + rest =~= ser_window(ms[0]) + r1);
        lemma_p_window_at(s, i, ms[0], r1);
        let j = i + ser_window(ms[0]).len() as int;
        lemma_suffix_split(s, i, ser_window(ms[0]), r1);
        lemma_suffix_split(s, j, seq![0x5du8], rest);
        assert(seq![0x5du8][0] == 0x5du8);
        assert(s[j + 0] == 0x5du8);
        assert(skip_ws(s, j) == j);
        assert(acc.push(ms[0]) =~= acc + ms);
        assert(p_items(s, i, acc) == Some((acc.push(ms[0]), j + 1)));
    } else {
        let tail = ms.drop_first();
        assert(ser_items(ms) == ser_window(ms[0]) + seq![0x2cu8] + ser_items(tail));
        let r2 = ser_items(tail) + seq![0x5du8] + rest;
        let r1 = seq![0x2cu8] + r2;
        assert(ser_items(ms) + seq![0x5du8] + rest =~= ser_window(ms[0]) + r1);
        lemma_p_window_at(s, i, ms[0], r1);
        let j = i + ser_window(ms[0]).len() as int;
        lemma_suffix_split(s, i, ser_window(ms[0]), r1);
        lemma_suffix_split(s, j, seq![0x2cu8], r2);
        assert(seq![0x2cu8][0] == 0x2cu8);
        assert(s[j + 0] == 0x2cu8);
        assert(skip_ws(s, j) == j);
        lemma_p_items_at(s, j + 1, tail, acc.push(ms[0]), rest);
        assert(acc.push(ms[0]) + tail =~= acc + ms);
        assert(p_items(s, i, acc) == Some((acc + ms, i + ser_items(ms).len() + 1)));
    }
}

/// Parsing a serialized snapshot yields the snapshot back: what `save`
/// writes, `load` reads unchanged.
pub proof fn lemma_save_then_load(ms: Seq<WinModel>)
    ensures
        spec_parse_snapshot(spec_ser_snapshot(ms)) == Some(ms),
{
    let s = spec_ser_snapshot(ms);
    assert(s == seq![0x5bu8] + ser_items(ms) + seq![0x5du8]);
    assert(s.subrange(0, s.len() as int) =~= s);
    if ms.len() == 0 {
        assert(ser_items(ms).len() == 0);
        assert(s =~= seq![0x5bu8] + (seq![0x5du8] + Seq::<u8>::empty()));
        lemma_suffix_split(s, 0, seq![0x5bu8], seq![0x5du8] + Seq::<u8>::empty());
        assert(seq![0x5bu8][0] == 0x5bu8);
        assert(s[0] == 0x5bu8);
        assert(skip_ws(s, 0) == 0);
        assert(p_sep(s, 0, 0x5b) == Some(1int));
        lemma_suffix_split(s, 1, seq![0x5du8], Seq::<u8>::empty());
        assert(seq![0x5du8][0] == 0x5du8);
        assert(s[1int + 0] == 0x5du8);
        assert(skip_ws(s, 1) == 1);
        assert(skip_ws(s, 2) == 2);
        assert(s.len() == 2);
        assert(spec_parse_snapshot(s) == Some(Seq::<WinModel>::empty()));
        assert(Seq::<WinModel>::empty() =~= ms);
    } else {
        let r1 = ser_items(ms) + seq![0x5du8] + Seq::<u8>::empty();
        assert(s =~= seq![0x5bu8] + (ser_items(ms) + seq![0x5du8]));
        lemma_suffix_split(s, 0, seq![0x5bu8], ser_items(ms) + seq![0x5du8]);
        assert(seq![0x5bu8][0] == 0x5bu8);
        assert(s[0] == 0x5bu8);
        assert(skip_ws(s, 0) == 0);
        assert(p_sep(s, 0, 0x5b) == Some(1int));
        assert(s.subrange(1, s.len() as int) =~= r1);
        assert(ser_items(ms)[0] == ser_window(ms[0])[0]) by {
            if ms.len() == 1 {
            } else {
                assert(ser_items(ms) == ser_window(ms[0]) + seq![0x2cu8] + ser_items(
                    ms.drop_first(),
                ));
                assert(ser_window(ms[0]).len() > 0);
            }
        }
        assert(ser_window(ms[0])[0] == 0x7bu8);
        assert(s.subrange(1, s.len() as int)[0] == s[1]);
        assert(r1[0] == ser_items(ms)[0]);
        assert(s[1] == 0x7bu8);
        assert(skip_ws(s, 1) == 1);
        lemma_p_items_at(s, 1, ms, Seq::<WinModel>::empty(), Seq::<u8>::empty());
        assert(Seq::<WinModel>::empty() + ms =~= ms);
        let k: int = 1 + ser_items(ms).len() as int + 1;
        assert(k == s.len());
        assert(skip_ws(s, k) == k);
        assert(spec_parse_snapshot(s) == Some(ms));
    }
}

/// Loading, saving and loading again is stable: a snapshot read from any
/// file content parses back identically after a save, so the set of
/// application/workspace pairs to restore is unchanged.
pub proof fn lemma_load_save_load(bytes: Seq<u8>, ms: Seq<WinModel>)
    requires
        spec_parse_snapshot(bytes) == Some(ms),
    ensures
        spec_parse_snapshot(spec_ser_snapshot(ms)) == Some(ms),
        spec_parse_snapshot(spec_ser_snapshot(ms)) matches Some(again)
            && crate::snapshot::restore_pairs(again) == crate::snapshot::restore_pairs(ms),
{
    lemma_save_then_load(ms);
}

} // verus!
