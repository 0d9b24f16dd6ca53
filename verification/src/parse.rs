//! Structural decoding of the two response payloads:
//! `{"identities": [<string>, ...]}` and `{"sig": "<base64>"}`.
//!
//! The accepted grammar is stated by the spec functions below and the
//! executable parser is proved to decide it exactly: a JSON object with the
//! single expected field, and whitespace (space, tab, line feed, carriage
//! return) allowed around the structural tokens.  Identity names are full
//! JSON strings: raw UTF-8 content and the escape sequences
//! `\" \\ \/ \b \f \n \r \t \uXXXX` (surrogate pairs included) decode to
//! their character sequences.  The `sig` string needs neither escapes nor
//! non-ASCII content — base64 text is plain ASCII — so anything else there
//! is rejected, as is anything outside the grammar.

use crate::codec;
use crate::wire::{ListIdentities, Signature, strs_of};
use vstd::prelude::*;

verus! {

/// JSON insignificant whitespace.
pub open spec fn is_ws(c: u8) -> bool {
    c == 32 || c == 9 || c == 10 || c == 13
}

/// An ASCII byte accepted verbatim inside a string: not a control byte,
/// not the quote, not the backslash.
pub open spec fn is_str_byte(c: u8) -> bool {
    32 <= c && c < 128 && c != 34 && c != 92
}

/// A UTF-8 continuation byte.
pub open spec fn is_cont(c: u8) -> bool {
    128 <= c && c < 192
}

/// A hexadecimal digit, either case.
pub open spec fn is_hex_digit(c: u8) -> bool {
    (48 <= c && c <= 57) || (97 <= c && c <= 102) || (65 <= c && c <= 70)
}

/// Value of a hexadecimal digit.
pub open spec fn hex_val(c: u8) -> int {
    if 48 <= c && c <= 57 {
        c - 48
    } else if 97 <= c && c <= 102 {
        c - 87
    } else {
        c - 55
    }
}

/// Value of the four hexadecimal digits at `j`.
pub open spec fn hex4(s: Seq<u8>, j: int) -> int {
    4096 * hex_val(s[j]) + 256 * hex_val(s[j + 1]) + 16 * hex_val(s[j + 2]) + hex_val(s[j + 3])
}

/// The code points of a character sequence.
pub open spec fn code_points(s: Seq<char>) -> Seq<int> {
    s.map_values(|c: char| c as int)
}

/// `code_points` applied to each element of a sequence of character
/// sequences.
pub open spec fn seq_code_points(v: Seq<Seq<char>>) -> Seq<Seq<int>> {
    Seq::new(v.len(), |k: int| code_points(v[k]))
}

/// `code_points` applied to each string of a sequence of strings.
pub open spec fn strs_code_points(v: Seq<String>) -> Seq<Seq<int>> {
    Seq::new(v.len(), |k: int| code_points(v[k]@))
}

/// Index of the first non-whitespace byte at or after `i`.
pub open spec fn skip_ws(s: Seq<u8>, i: int) -> int
    decreases s.len() - i,
{
    if 0 <= i < s.len() && is_ws(s[i]) {
        skip_ws(s, i + 1)
    } else {
        i
    }
}

/// Code point and following index of an escape sequence whose backslash
/// stands just before `j`: one of the eight single-character escapes, a
/// `\uXXXX` naming a non-surrogate code point, or a surrogate pair of two
/// `\uXXXX` escapes naming a supplementary code point.
pub open spec fn escape_code(s: Seq<u8>, j: int) -> Option<(int, int)> {
    if j < 0 || j >= s.len() {
        None
    } else {
        let c = s[j];
        if c == 34 {
            Some((34, j + 1))
        } else if c == 92 {
            Some((92, j + 1))
        } else if c == 47 {
            Some((47, j + 1))
        } else if c == 98 {
            Some((8, j + 1))
        } else if c == 102 {
            Some((12, j + 1))
        } else if c == 110 {
            Some((10, j + 1))
        } else if c == 114 {
            Some((13, j + 1))
        } else if c == 116 {
            Some((9, j + 1))
        } else if c == 117 {
            if j + 5 <= s.len() && is_hex_digit(s[j + 1]) && is_hex_digit(s[j + 2]) && is_hex_digit(
                s[j + 3],
            ) && is_hex_digit(s[j + 4]) {
                let v = hex4(s, j + 1);
                if v < 0xD800 || v >= 0xE000 {
                    Some((v, j + 5))
                } else if v < 0xDC00 {
                    if j + 11 <= s.len() && s[j + 5] == 92 && s[j + 6] == 117 && is_hex_digit(
                        s[j + 7],
                    ) && is_hex_digit(s[j + 8]) && is_hex_digit(s[j + 9]) && is_hex_digit(
                        s[j + 10],
                    ) {
                        let w = hex4(s, j + 7);
                        if 0xDC00 <= w && w < 0xE000 {
                            Some((0x10000 + (v - 0xD800) * 0x400 + (w - 0xDC00), j + 11))
                        } else {
                            None
                        }
                    } else {
                        None
                    }
                } else {
                    None
                }
            } else {
                None
            }
        } else {
            None
        }
    }
}

/// Code point and following index of a well-formed multi-byte UTF-8
/// sequence starting at `i`: the shortest-form two-, three- and four-byte
/// shapes, surrogate code points excluded.
pub open spec fn utf8_code(s: Seq<u8>, i: int) -> Option<(int, int)> {
    if i < 0 || i >= s.len() {
        None
    } else {
        let c0 = s[i];
        if 0xC2 <= c0 && c0 <= 0xDF {
            if i + 2 <= s.len() && is_cont(s[i + 1]) {
                Some(((c0 - 0xC0) * 0x40 + (s[i + 1] - 0x80), i + 2))
            } else {
                None
            }
        } else if c0 == 0xE0 {
            if i + 3 <= s.len() && 0xA0 <= s[i + 1] && s[i + 1] <= 0xBF && is_cont(s[i + 2]) {
                Some(((s[i + 1] - 0x80) * 0x40 + (s[i + 2] - 0x80), i + 3))
            } else {
                None
            }
        } else if 0xE1 <= c0 && c0 <= 0xEF && c0 != 0xED {
            if i + 3 <= s.len() && is_cont(s[i + 1]) && is_cont(s[i + 2]) {
                Some(((c0 - 0xE0) * 0x1000 + (s[i + 1] - 0x80) * 0x40 + (s[i + 2] - 0x80), i + 3))
            } else {
                None
            }
        } else if c0 == 0xED {
            if i + 3 <= s.len() && 0x80 <= s[i + 1] && s[i + 1] <= 0x9F && is_cont(s[i + 2]) {
                Some((0xD000 + (s[i + 1] - 0x80) * 0x40 + (s[i + 2] - 0x80), i + 3))
            } else {
                None
            }
        } else if c0 == 0xF0 {
            if i + 4 <= s.len() && 0x90 <= s[i + 1] && s[i + 1] <= 0xBF && is_cont(s[i + 2])
                && is_cont(s[i + 3]) {
                Some(((s[i + 1] - 0x80) * 0x1000 + (s[i + 2] - 0x80) * 0x40 + (s[i + 3] - 0x80), i
                    + 4))
            } else {
                None
            }
        } else if 0xF1 <= c0 && c0 <= 0xF3 {
            if i + 4 <= s.len() && is_cont(s[i + 1]) && is_cont(s[i + 2]) && is_cont(s[i + 3]) {
                Some(((c0 - 0xF0) * 0x40000 + (s[i + 1] - 0x80) * 0x1000 + (s[i + 2] - 0x80) * 0x40
                    + (s[i + 3] - 0x80), i + 4))
            } else {
                None
            }
        } else if c0 == 0xF4 {
            if i + 4 <= s.len() && 0x80 <= s[i + 1] && s[i + 1] <= 0x8F && is_cont(s[i + 2])
                && is_cont(s[i + 3]) {
                Some((0x100000 + (s[i + 1] - 0x80) * 0x1000 + (s[i + 2] - 0x80) * 0x40 + (s[i + 3]
                    - 0x80), i + 4))
            } else {
                None
            }
        } else {
            None
        }
    }
}

proof fn lemma_escape_code_props(s: Seq<u8>, j: int)
    ensures
        escape_code(s, j) matches Some(e) ==> j < e.1 <= s.len() && 0 <= e.0 <= 0x10FFFF && !(
        0xD800 <= e.0 < 0xE000),
{
}

proof fn lemma_utf8_code_props(s: Seq<u8>, i: int)
    ensures
        utf8_code(s, i) matches Some(e) ==> i < e.1 <= s.len() && 0 <= e.0 <= 0x10FFFF && !(0xD800
            <= e.0 < 0xE000),
{
}

/// Content and end position of a string whose opening quote stands just
/// before `i`, for the `sig` field: the content bytes (plain ASCII, no
/// escapes) and the index after the closing quote.
pub open spec fn scan_string(s: Seq<u8>, i: int) -> Option<(Seq<u8>, int)>
    decreases s.len() - i,
{
    if i < 0 || i >= s.len() {
        None
    } else if s[i] == 34 {
        Some((Seq::empty(), i + 1))
    } else if is_str_byte(s[i]) {
        match scan_string(s, i + 1) {
            Some(p) => Some((seq![s[i]] + p.0, p.1)),
            None => None,
        }
    } else {
        None
    }
}

/// Elements and end position of a string array whose opening bracket
/// stands just before `i`: either the empty array closes at once, or a
/// first string element begins.  Elements are sequences of code points.
pub open spec fn arr_first(s: Seq<u8>, i: int) -> Option<(Seq<Seq<int>>, int)>
    decreases s.len() - i,
{
    if i < 0 || i >= s.len() {
        None
    } else if is_ws(s[i]) {
        arr_first(s, i + 1)
    } else if s[i] == 93 {
        Some((Seq::empty(), i + 1))
    } else if s[i] == 34 {
        str_elem(s, i + 1, Seq::empty())
    } else {
        None
    }
}

/// Continuation inside a string element whose code points so far are
/// `cur`: a closing quote ends the element, and otherwise one verbatim
/// ASCII byte, one escape sequence or one multi-byte UTF-8 sequence
/// contributes its code point.
pub open spec fn str_elem(s: Seq<u8>, i: int, cur: Seq<int>) -> Option<(Seq<Seq<int>>, int)>
    decreases s.len() - i,
    via str_elem_decreases
{
    if i < 0 || i >= s.len() {
        None
    } else if s[i] == 34 {
        match arr_tail(s, i + 1) {
            Some(p) => Some((seq![cur] + p.0, p.1)),
            None => None,
        }
    } else if s[i] == 92 {
        match escape_code(s, i + 1) {
            Some(e) => str_elem(s, e.1, cur + seq![e.0]),
            None => None,
        }
    } else if is_str_byte(s[i]) {
        str_elem(s, i + 1, cur + seq![s[i] as int])
    } else {
        match utf8_code(s, i) {
            Some(e) => str_elem(s, e.1, cur + seq![e.0]),
            None => None,
        }
    }
}

#[via_fn]
proof fn str_elem_decreases(s: Seq<u8>, i: int, cur: Seq<int>) {
    lemma_escape_code_props(s, i + 1);
    lemma_utf8_code_props(s, i);
}

/// Continuation after a completed element: the array closes, or a comma
/// announces the next element.
pub open spec fn arr_tail(s: Seq<u8>, i: int) -> Option<(Seq<Seq<int>>, int)>
    decreases s.len() - i,
{
    if i < 0 || i >= s.len() {
        None
    } else if is_ws(s[i]) {
        arr_tail(s, i + 1)
    } else if s[i] == 93 {
        Some((Seq::empty(), i + 1))
    } else if s[i] == 44 {
        arr_next(s, i + 1)
    } else {
        None
    }
}

/// Continuation after a comma: the next string element must begin.
pub open spec fn arr_next(s: Seq<u8>, i: int) -> Option<(Seq<Seq<int>>, int)>
    decreases s.len() - i,
{
    if i < 0 || i >= s.len() {
        None
    } else if is_ws(s[i]) {
        arr_next(s, i + 1)
    } else if s[i] == 34 {
        str_elem(s, i + 1, Seq::empty())
    } else {
        None
    }
}

/// The bytes `"identities"`.
pub open spec fn key_identities() -> Seq<u8> {
    seq![34, 105, 100, 101, 110, 116, 105, 116, 105, 101, 115, 34]
}

/// The bytes `"sig"`.
pub open spec fn key_sig() -> Seq<u8> {
    seq![34, 115, 105, 103, 34]
}

/// The identity names a well-formed list-identities body stands for, as
/// sequences of code points in wire order, or `None` when the body is not
/// in the accepted grammar.
pub open spec fn identity_list_language(s: Seq<u8>) -> Option<Seq<Seq<int>>> {
    let i0 = skip_ws(s, 0);
    if i0 < s.len() && s[i0] == 123 {
        let i1 = skip_ws(s, i0 + 1);
        if i1 + 12 <= s.len() && s.subrange(i1, i1 + 12) == key_identities() {
            let i2 = skip_ws(s, i1 + 12);
            if i2 < s.len() && s[i2] == 58 {
                let i3 = skip_ws(s, i2 + 1);
                if i3 < s.len() && s[i3] == 91 {
                    match arr_first(s, i3 + 1) {
                        Some(p) => {
                            let k = skip_ws(s, p.1);
                            if k < s.len() && s[k] == 125 && skip_ws(s, k + 1) == s.len() {
                                Some(p.0)
                            } else {
                                None
                            }
                        },
                        None => None,
                    }
                } else {
                    None
                }
            } else {
                None
            }
        } else {
            None
        }
    } else {
        None
    }
}

/// The base64 text a well-formed sign-response body carries in its `sig`
/// field, or `None` when the body is not in the accepted grammar.
pub open spec fn signature_text(s: Seq<u8>) -> Option<Seq<u8>> {
    let i0 = skip_ws(s, 0);
    if i0 < s.len() && s[i0] == 123 {
        let i1 = skip_ws(s, i0 + 1);
        if i1 + 5 <= s.len() && s.subrange(i1, i1 + 5) == key_sig() {
            let i2 = skip_ws(s, i1 + 5);
            if i2 < s.len() && s[i2] == 58 {
                let i3 = skip_ws(s, i2 + 1);
                if i3 < s.len() && s[i3] == 34 {
                    match scan_string(s, i3 + 1) {
                        Some(p) => {
                            let k = skip_ws(s, p.1);
                            if k < s.len() && s[k] == 125 && skip_ws(s, k + 1) == s.len() {
                                Some(p.0)
                            } else {
                                None
                            }
                        },
                        None => None,
                    }
                } else {
                    None
                }
            } else {
                None
            }
        } else {
            None
        }
    } else {
        None
    }
}

/// Why a response body was rejected: its structure is outside the
/// grammar, or a base64 field inside it does not decode.
#[derive(Debug, Clone, Copy, PartialEq, Eq, Structural)]
pub enum ParseIssue {
    Structure,
    Base64,
}

/// Relies on `char::from_u32`: its documentation promises `Some` exactly
/// for Unicode scalar values (at most 0x10FFFF and not a surrogate), and
/// the returned character has the given code point.
#[verifier::external_body]
fn char_from_code(cp: u32) -> (r: Option<char>)
    ensures
        match r {
            Some(c) => c as int == cp as int && (cp < 0xD800 || (0xE000 <= cp && cp
                <= 0x10FFFF)),
            None => (0xD800 <= cp && cp < 0xE000) || cp > 0x10FFFF,
        },
{
    char::from_u32(cp)
}

/// Relies on `String::push`: its documentation promises that it appends
/// exactly the given character.
#[verifier::external_body]
fn push_char(s: &mut String, c: char)
    ensures
        final(s)@ == old(s)@ + seq![c],
{
    s.push(c);
}

fn skip_ws_exec(s: &Vec<u8>, i: usize) -> (j: usize)
    requires
        i <= s@.len(),
    ensures
        i <= j <= s@.len(),
        j as int == skip_ws(s@, i as int),
{
    let mut k = i;
    while k < s.len() && (s[k] == 32 || s[k] == 9 || s[k] == 10 || s[k] == 13)
        invariant
            i <= k <= s@.len(),
            skip_ws(s@, i as int) == skip_ws(s@, k as int),
        decreases s@.len() - k,
    {
        k = k + 1;
    }
    k
}

fn hex_digit_val(c: u8) -> (r: Option<u32>)
    ensures
        match r {
            Some(v) => is_hex_digit(c) && v as int == hex_val(c) && v < 16,
            None => !is_hex_digit(c),
        },
{
    if c >= 48 && c <= 57 {
        Some((c - 48) as u32)
    } else if c >= 97 && c <= 102 {
        Some((c - 87) as u32)
    } else if c >= 65 && c <= 70 {
        Some((c - 55) as u32)
    } else {
        None
    }
}

fn escape_code_exec(s: &Vec<u8>, j: usize) -> (r: Option<(u32, usize)>)
    requires
        j <= s@.len(),
    ensures
        match escape_code(s@, j as int) {
            Some(e) => r matches Some(q) && q.0 as int == e.0 && q.1 as int == e.1 && j < q.1
                <= s@.len(),
            None => r is None,
        },
{
    let n = s.len();
    if j >= n {
        return None;
    }
    let c = s[j];
    if c == 34 {
        Some((34, j + 1))
    } else if c == 92 {
        Some((92, j + 1))
    } else if c == 47 {
        Some((47, j + 1))
    } else if c == 98 {
        Some((8, j + 1))
    } else if c == 102 {
        Some((12, j + 1))
    } else if c == 110 {
        Some((10, j + 1))
    } else if c == 114 {
        Some((13, j + 1))
    } else if c == 116 {
        Some((9, j + 1))
    } else if c == 117 {
        if n - j < 5 {
            return None;
        }
        let h1 = match hex_digit_val(s[j + 1]) {
            Some(v) => v,
            None => {
                return None;
            },
        };
        let h2 = match hex_digit_val(s[j + 2]) {
            Some(v) => v,
            None => {
                return None;
            },
        };
        let h3 = match hex_digit_val(s[j + 3]) {
            Some(v) => v,
            None => {
                return None;
            },
        };
        let h4 = match hex_digit_val(s[j + 4]) {
            Some(v) => v,
            None => {
                return None;
            },
        };
        let v = 4096 * h1 + 256 * h2 + 16 * h3 + h4;
        if v < 0xD800 || v >= 0xE000 {
            Some((v, j + 5))
        } else if v < 0xDC00 {
            if n - j < 11 || s[j + 5] != 92 || s[j + 6] != 117 {
                return None;
            }
            let g1 = match hex_digit_val(s[j + 7]) {
                Some(v2) => v2,
                None => {
                    return None;
                },
            };
            let g2 = match hex_digit_val(s[j + 8]) {
                Some(v2) => v2,
                None => {
                    return None;
                },
            };
            let g3 = match hex_digit_val(s[j + 9]) {
                Some(v2) => v2,
                None => {
                    return None;
                },
            };
            let g4 = match hex_digit_val(s[j + 10]) {
                Some(v2) => v2,
                None => {
                    return None;
                },
            };
            let w = 4096 * g1 + 256 * g2 + 16 * g3 + g4;
            if w >= 0xDC00 && w < 0xE000 {
                Some((0x10000 + (v - 0xD800) * 0x400 + (w - 0xDC00), j + 11))
            } else {
                None
            }
        } else {
            None
        }
    } else {
        None
    }
}

fn utf8_code_exec(s: &Vec<u8>, i: usize) -> (r: Option<(u32, usize)>)
    requires
        i <= s@.len(),
    ensures
        match utf8_code(s@, i as int) {
            Some(e) => r matches Some(q) && q.0 as int == e.0 && q.1 as int == e.1 && i < q.1
                <= s@.len(),
            None => r is None,
        },
{
    let n = s.len();
    if i >= n {
        return None;
    }
    let c0 = s[i];
    if c0 >= 0xC2 && c0 <= 0xDF {
        if n - i >= 2 && s[i + 1] >= 0x80 && s[i + 1] < 0xC0 {
            let c1 = s[i + 1];
            Some(((c0 as u32 - 0xC0) * 0x40 + (c1 as u32 - 0x80), i + 2))
        } else {
            None
        }
    } else if c0 == 0xE0 {
        if n - i >= 3 && s[i + 1] >= 0xA0 && s[i + 1] <= 0xBF && s[i + 2] >= 0x80 && s[i + 2]
            < 0xC0 {
            let c1 = s[i + 1];
            let c2 = s[i + 2];
            Some(((c1 as u32 - 0x80) * 0x40 + (c2 as u32 - 0x80), i + 3))
        } else {
            None
        }
    } else if c0 >= 0xE1 && c0 <= 0xEF && c0 != 0xED {
        if n - i >= 3 && s[i + 1] >= 0x80 && s[i + 1] < 0xC0 && s[i + 2] >= 0x80 && s[i + 2]
            < 0xC0 {
            let c1 = s[i + 1];
            let c2 = s[i + 2];
            Some(((c0 as u32 - 0xE0) * 0x1000 + (c1 as u32 - 0x80) * 0x40 + (c2 as u32 - 0x80), i
                + 3))
        } else {
            None
        }
    } else if c0 == 0xED {
        if n - i >= 3 && s[i + 1] >= 0x80 && s[i + 1] <= 0x9F && s[i + 2] >= 0x80 && s[i + 2]
            < 0xC0 {
            let c1 = s[i + 1];
            let c2 = s[i + 2];
            Some((0xD000 + (c1 as u32 - 0x80) * 0x40 + (c2 as u32 - 0x80), i + 3))
        } else {
            None
        }
    } else if c0 == 0xF0 {
        if n - i >= 4 && s[i + 1] >= 0x90 && s[i + 1] <= 0xBF && s[i + 2] >= 0x80 && s[i + 2]
            < 0xC0 && s[i + 3] >= 0x80 && s[i + 3] < 0xC0 {
            let c1 = s[i + 1];
            let c2 = s[i + 2];
            let c3 = s[i + 3];
            Some(((c1 as u32 - 0x80) * 0x1000 + (c2 as u32 - 0x80) * 0x40 + (c3 as u32 - 0x80), i
                + 4))
        } else {
            None
        }
    } else if c0 >= 0xF1 && c0 <= 0xF3 {
        if n - i >= 4 && s[i + 1] >= 0x80 && s[i + 1] < 0xC0 && s[i + 2] >= 0x80 && s[i + 2]
            < 0xC0 && s[i + 3] >= 0x80 && s[i + 3] < 0xC0 {
            let c1 = s[i + 1];
            let c2 = s[i + 2];
            let c3 = s[i + 3];
            Some(((c0 as u32 - 0xF0) * 0x40000 + (c1 as u32 - 0x80) * 0x1000 + (c2 as u32 - 0x80)
                * 0x40 + (c3 as u32 - 0x80), i + 4))
        } else {
            None
        }
    } else if c0 == 0xF4 {
        if n - i >= 4 && s[i + 1] >= 0x80 && s[i + 1] <= 0x8F && s[i + 2] >= 0x80 && s[i + 2]
            < 0xC0 && s[i + 3] >= 0x80 && s[i + 3] < 0xC0 {
            let c1 = s[i + 1];
            let c2 = s[i + 2];
            let c3 = s[i + 3];
            Some((0x100000 + (c1 as u32 - 0x80) * 0x1000 + (c2 as u32 - 0x80) * 0x40 + (c3 as u32
                - 0x80), i + 4))
        } else {
            None
        }
    } else {
        None
    }
}

fn scan_str_exec(s: &Vec<u8>, i: usize) -> (r: Option<(Vec<u8>, usize)>)
    requires
        i <= s@.len(),
    ensures
        match scan_string(s@, i as int) {
            Some(p) => r matches Some(q) && q.0@ == p.0 && q.1 as int == p.1 && q.1 <= s@.len(),
            None => r is None,
        },
    decreases s@.len() - i,
{
    if i < s.len() {
        let c = s[i];
        if c == 34 {
            Some((Vec::new(), i + 1))
        } else if c >= 32 && c < 128 && c != 92 {
            match scan_str_exec(s, i + 1) {
                Some((t, j)) => {
                    let mut t2 = t;
                    let ghost gt = t2@;
                    t2.insert(0, c);
                    assert(t2@ =~= seq![s@[i as int]] + gt);
                    Some((t2, j))
                },
                None => None,
            }
        } else {
            None
        }
    } else {
        None
    }
}

fn arr_first_exec(s: &Vec<u8>, i: usize) -> (r: Option<(Vec<String>, usize)>)
    requires
        i <= s@.len(),
    ensures
        match arr_first(s@, i as int) {
            Some(p) => r matches Some(q) && strs_code_points(q.0@) == p.0 && q.1 as int == p.1
                && q.1 <= s@.len(),
            None => r is None,
        },
    decreases s@.len() - i,
{
    if i < s.len() {
        let c = s[i];
        if c == 32 || c == 9 || c == 10 || c == 13 {
            arr_first_exec(s, i + 1)
        } else if c == 93 {
            let empty: Vec<String> = Vec::new();
            assert(strs_code_points(empty@) =~= Seq::<Seq<int>>::empty());
            Some((empty, i + 1))
        } else if c == 34 {
            let cur = String::new();
            assert(code_points(cur@) =~= Seq::<int>::empty());
            str_elem_exec(s, i + 1, cur)
        } else {
            None
        }
    } else {
        None
    }
}

fn str_elem_exec(s: &Vec<u8>, i: usize, cur: String) -> (r: Option<(Vec<String>, usize)>)
    requires
        i <= s@.len(),
    ensures
        match str_elem(s@, i as int, code_points(cur@)) {
            Some(p) => r matches Some(q) && strs_code_points(q.0@) == p.0 && q.1 as int == p.1
                && q.1 <= s@.len(),
            None => r is None,
        },
    decreases s@.len() - i,
{
    let ghost gcur = code_points(cur@);
    if i < s.len() {
        let c = s[i];
        if c == 34 {
            match arr_tail_exec(s, i + 1) {
                Some((ts, j)) => {
                    let mut ts2 = ts;
                    let ghost gts = strs_code_points(ts2@);
                    ts2.insert(0, cur);
                    assert(strs_code_points(ts2@) =~= seq![gcur] + gts);
                    Some((ts2, j))
                },
                None => None,
            }
        } else if c == 92 {
            match escape_code_exec(s, i + 1) {
                Some((cp, next)) => {
                    proof {
                        lemma_escape_code_props(s@, i as int + 1);
                    }
                    match char_from_code(cp) {
                        Some(ch) => {
                            let mut cur2 = cur;
                            push_char(&mut cur2, ch);
                            assert(code_points(cur2@) =~= gcur + seq![cp as int]);
                            str_elem_exec(s, next, cur2)
                        },
                        None => {
                            proof {
                                assert(false);
                            }
                            None
                        },
                    }
                },
                None => None,
            }
        } else if c >= 32 && c < 128 && c != 92 {
            match char_from_code(c as u32) {
                Some(ch) => {
                    let mut cur2 = cur;
                    push_char(&mut cur2, ch);
                    assert(code_points(cur2@) =~= gcur + seq![s@[i as int] as int]);
                    str_elem_exec(s, i + 1, cur2)
                },
                None => {
                    proof {
                        assert(false);
                    }
                    None
                },
            }
        } else {
            match utf8_code_exec(s, i) {
                Some((cp, next)) => {
                    proof {
                        lemma_utf8_code_props(s@, i as int);
                    }
                    match char_from_code(cp) {
                        Some(ch) => {
                            let mut cur2 = cur;
                            push_char(&mut cur2, ch);
                            assert(code_points(cur2@) =~= gcur + seq![cp as int]);
                            str_elem_exec(s, next, cur2)
                        },
                        None => {
                            proof {
                                assert(false);
                            }
                            None
                        },
                    }
                },
                None => None,
            }
        }
    } else {
        None
    }
}

fn arr_tail_exec(s: &Vec<u8>, i: usize) -> (r: Option<(Vec<String>, usize)>)
    requires
        i <= s@.len(),
    ensures
        match arr_tail(s@, i as int) {
            Some(p) => r matches Some(q) && strs_code_points(q.0@) == p.0 && q.1 as int == p.1
                && q.1 <= s@.len(),
            None => r is None,
        },
    decreases s@.len() - i,
{
    if i < s.len() {
        let c = s[i];
        if c == 32 || c == 9 || c == 10 || c == 13 {
            arr_tail_exec(s, i + 1)
        } else if c == 93 {
            let empty: Vec<String> = Vec::new();
            assert(strs_code_points(empty@) =~= Seq::<Seq<int>>::empty());
            Some((empty, i + 1))
        } else if c == 44 {
            arr_next_exec(s, i + 1)
        } else {
            None
        }
    } else {
        None
    }
}

fn arr_next_exec(s: &Vec<u8>, i: usize) -> (r: Option<(Vec<String>, usize)>)
    requires
        i <= s@.len(),
    ensures
        match arr_next(s@, i as int) {
            Some(p) => r matches Some(q) && strs_code_points(q.0@) == p.0 && q.1 as int == p.1
                && q.1 <= s@.len(),
            None => r is None,
        },
    decreases s@.len() - i,
{
    if i < s.len() {
        let c = s[i];
        if c == 32 || c == 9 || c == 10 || c == 13 {
            arr_next_exec(s, i + 1)
        } else if c == 34 {
            let cur = String::new();
            assert(code_points(cur@) =~= Seq::<int>::empty());
            str_elem_exec(s, i + 1, cur)
        } else {
            None
        }
    } else {
        None
    }
}

fn key_identities_at(s: &Vec<u8>, i: usize) -> (r: bool)
    requires
        i + 12 <= s@.len(),
    ensures
        r == (s@.subrange(i as int, i as int + 12) == key_identities()),
{
    let n = s.len();
    assert(i + 12 <= n);
    let ok = s[i] == 34 && s[i + 1] == 105 && s[i + 2] == 100 && s[i + 3] == 101 && s[i + 4]
        == 110 && s[i + 5] == 116 && s[i + 6] == 105 && s[i + 7] == 116 && s[i + 8] == 105 && s[i
        + 9] == 101 && s[i + 10] == 115 && s[i + 11] == 34;
    proof {
        let sub = s@.subrange(i as int, i as int + 12);
        if ok {
            assert(sub =~= key_identities());
        } else {
            if sub == key_identities() {
                assert(s@[i as int] == sub[0]);
                assert(s@[i as int + 1] == sub[1]);
                assert(s@[i as int + 2] == sub[2]);
                assert(s@[i as int + 3] == sub[3]);
                assert(s@[i as int + 4] == sub[4]);
                assert(s@[i as int + 5] == sub[5]);
                assert(s@[i as int + 6] == sub[6]);
                assert(s@[i as int + 7] == sub[7]);
                assert(s@[i as int + 8] == sub[8]);
                assert(s@[i as int + 9] == sub[9]);
                assert(s@[i as int + 10] == sub[10]);
                assert(s@[i as int + 11] == sub[11]);
                assert(false);
            }
        }
    }
    ok
}

fn key_sig_at(s: &Vec<u8>, i: usize) -> (r: bool)
    requires
        i + 5 <= s@.len(),
    ensures
        r == (s@.subrange(i as int, i as int + 5) == key_sig()),
{
    let n = s.len();
    assert(i + 5 <= n);
    let ok = s[i] == 34 && s[i + 1] == 115 && s[i + 2] == 105 && s[i + 3] == 103 && s[i + 4]
        == 34;
    proof {
        let sub = s@.subrange(i as int, i as int + 5);
        if ok {
            assert(sub =~= key_sig());
        } else {
            if sub == key_sig() {
                assert(s@[i as int] == sub[0]);
                assert(s@[i as int + 1] == sub[1]);
                assert(s@[i as int + 2] == sub[2]);
                assert(s@[i as int + 3] == sub[3]);
                assert(s@[i as int + 4] == sub[4]);
                assert(false);
            }
        }
    }
    ok
}

/// Decode a buffered list-identities response body.  Returns the identity
/// list exactly when the body is in the accepted grammar
/// (`identity_list_language`), the names decoded to exactly the code
/// points the grammar gives and in the wire order; any other body is
/// rejected.
pub fn parse_identity_list(body: &Vec<u8>) -> (r: Option<ListIdentities>)
    ensures
        match identity_list_language(body@) {
            Some(ids) => r matches Some(l) && seq_code_points(l@) == ids,
            None => r is None,
        },
{
    let n = body.len();
    let i0 = skip_ws_exec(body, 0);
    if i0 >= n || body[i0] != 123 {
        return None;
    }
    let i1 = skip_ws_exec(body, i0 + 1);
    if n - i1 < 12 {
        return None;
    }
    if !key_identities_at(body, i1) {
        return None;
    }
    let i2 = skip_ws_exec(body, i1 + 12);
    if i2 >= n || body[i2] != 58 {
        return None;
    }
    let i3 = skip_ws_exec(body, i2 + 1);
    if i3 >= n || body[i3] != 91 {
        return None;
    }
    match arr_first_exec(body, i3 + 1) {
        None => None,
        Some((names, j)) => {
            let k = skip_ws_exec(body, j);
            if k >= n || body[k] != 125 {
                return None;
            }
            let e = skip_ws_exec(body, k + 1);
            if e != n {
                return None;
            }
            let out = ListIdentities { identities: names };
            assert(seq_code_points(strs_of(out.identities@)) =~= strs_code_points(
                out.identities@,
            ));
            Some(out)
        },
    }
}

/// Decode a buffered sign-response body.  Returns the signature exactly
/// when the body is in the accepted grammar and the `sig` field holds
/// valid base64 text; a body outside the grammar is rejected as
/// `Structure`, and a well-formed body whose `sig` text is not valid
/// base64 as `Base64`.
pub fn parse_signature(body: &Vec<u8>) -> (r: Result<Signature, ParseIssue>)
    ensures
        match signature_text(body@) {
            Some(txt) => {
                if codec::valid_b64(txt) {
                    r matches Ok(sig) && sig.sig@ == codec::decoded_b64(txt)
                } else {
                    r matches Err(ParseIssue::Base64)
                }
            },
            None => r matches Err(ParseIssue::Structure),
        },
{
    let n = body.len();
    let i0 = skip_ws_exec(body, 0);
    if i0 >= n || body[i0] != 123 {
        return Err(ParseIssue::Structure);
    }
    let i1 = skip_ws_exec(body, i0 + 1);
    if n - i1 < 5 {
        return Err(ParseIssue::Structure);
    }
    if !key_sig_at(body, i1) {
        return Err(ParseIssue::Structure);
    }
    let i2 = skip_ws_exec(body, i1 + 5);
    if i2 >= n || body[i2] != 58 {
        return Err(ParseIssue::Structure);
    }
    let i3 = skip_ws_exec(body, i2 + 1);
    if i3 >= n || body[i3] != 34 {
        return Err(ParseIssue::Structure);
    }
    match scan_str_exec(body, i3 + 1) {
        None => Err(ParseIssue::Structure),
        Some((txt, j)) => {
            let k = skip_ws_exec(body, j);
            if k >= n || body[k] != 125 {
                return Err(ParseIssue::Structure);
            }
            let e = skip_ws_exec(body, k + 1);
            if e != n {
                return Err(ParseIssue::Structure);
            }
            match codec::decode(&txt) {
                Ok(bytes) => Ok(Signature { sig: bytes }),
                Err(_) => Err(ParseIssue::Base64),
            }
        },
    }
}

} // verus!
