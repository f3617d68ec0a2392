use crate::error::Error;
use crate::flatten::lemma_insert_wf;
use crate::flatten::obj_insert;
use crate::flatten::sp_insert;
use crate::textnum::parse_integer;
use crate::textnum::sp_parse_i64;
use crate::textnum::string_from_utf8;
use crate::value::distinct_keys;
use crate::value::entries_view;
use crate::value::lemma_entries_view;
use crate::value::lemma_values_view;
use crate::value::value_wf;
use crate::value::values_view;
use crate::value::Value;
use crate::value::ValueView;
use vstd::prelude::*;
use vstd::utf8::decode_utf8;
use vstd::utf8::valid_utf8;

verus! {

/// How a buffer's records are segmented: detected from the first byte,
/// forced newline-delimited, or forced single-array.
pub enum JsonMode {
    Auto,
    NdJson,
    Array,
}

/// Options of the JSON record reader.
pub struct Options {
    pub mode: JsonMode,
    pub flatten_objects: bool,
}

/// Whether a byte is ASCII whitespace, as the scanner skips it.
pub open spec fn is_ws(b: u8) -> bool {
    b == 32 || b == 9 || b == 10 || b == 12 || b == 13
}

/// The index of the first byte at or after `i` that is not whitespace,
/// or the buffer's length when only whitespace remains.
pub open spec fn sp_ws(b: Seq<u8>, i: int) -> int
    decreases b.len() - i,
{
    if !(0 <= i < b.len()) {
        b.len() as int
    } else if is_ws(b[i]) {
        sp_ws(b, i + 1)
    } else {
        i
    }
}

/// The value of one hexadecimal digit byte.
pub open spec fn sp_hex_val(b: u8) -> Option<u32> {
    if 48 <= b && b <= 57 {
        Some((b - 48) as u32)
    } else if 97 <= b && b <= 102 {
        Some((b - 87) as u32)
    } else if 65 <= b && b <= 70 {
        Some((b - 55) as u32)
    } else {
        None
    }
}

/// The value of four hexadecimal digit bytes at `i`.
pub open spec fn sp_hex4(b: Seq<u8>, i: int) -> Option<u32> {
    if !(0 <= i && i + 4 <= b.len()) {
        None
    } else {
        match (sp_hex_val(b[i]), sp_hex_val(b[i + 1]), sp_hex_val(b[i + 2]), sp_hex_val(b[i + 3])) {
            (Some(d0), Some(d1), Some(d2), Some(d3)) => Some(
                (((d0 * 16 + d1) * 16 + d2) * 16 + d3) as u32,
            ),
            _ => None,
        }
    }
}

/// The UTF-8 encoding of one Unicode scalar value.
pub open spec fn sp_scalar_bytes(cp: u32) -> Seq<u8> {
    if cp < 0x80 {
        seq![cp as u8]
    } else if cp < 0x800 {
        seq![(0xC0 | (cp / 0x40)) as u8, (0x80 | (cp % 0x40)) as u8]
    } else if cp < 0x10000 {
        seq![
            (0xE0 | (cp / 0x1000)) as u8,
            (0x80 | ((cp / 0x40) % 0x40)) as u8,
            (0x80 | (cp % 0x40)) as u8,
        ]
    } else {
        seq![
            (0xF0 | (cp / 0x40000)) as u8,
            (0x80 | ((cp / 0x1000) % 0x40)) as u8,
            (0x80 | ((cp / 0x40) % 0x40)) as u8,
            (0x80 | (cp % 0x40)) as u8,
        ]
    }
}

/// The continuation of a string body: from byte `i`, with the content
/// bytes decoded so far in `acc`, the decoded text and the position
/// after the closing quote — or nothing at an invalid escape, a control
/// character, invalid UTF-8, or an unterminated string.
pub open spec fn sp_string_tail(b: Seq<u8>, i: int, acc: Seq<u8>) -> Option<(Seq<char>, int)>
    decreases b.len() - i,
{
    if !(0 <= i < b.len()) {
        None
    } else {
        let c = b[i];
        if c == 34 {
            if valid_utf8(acc) {
                Some((decode_utf8(acc), i + 1))
            } else {
                None
            }
        } else if c == 92 {
            if b.len() - i < 2 {
                None
            } else {
                let e = b[i + 1];
                if e == 34 {
                    sp_string_tail(b, i + 2, acc.push(34))
                } else if e == 92 {
                    sp_string_tail(b, i + 2, acc.push(92))
                } else if e == 47 {
                    sp_string_tail(b, i + 2, acc.push(47))
                } else if e == 98 {
                    sp_string_tail(b, i + 2, acc.push(8))
                } else if e == 102 {
                    sp_string_tail(b, i + 2, acc.push(12))
                } else if e == 110 {
                    sp_string_tail(b, i + 2, acc.push(10))
                } else if e == 114 {
                    sp_string_tail(b, i + 2, acc.push(13))
                } else if e == 116 {
                    sp_string_tail(b, i + 2, acc.push(9))
                } else if e == 117 {
                    if b.len() - i < 6 {
                        None
                    } else {
                        match sp_hex4(b, i + 2) {
                            None => None,
                            Some(cp) => {
                                if 0xD800 <= cp && cp <= 0xDBFF {
                                    if b.len() - i < 12 || b[i + 6] != 92 || b[i + 7] != 117 {
                                        None
                                    } else {
                                        match sp_hex4(b, i + 8) {
                                            None => None,
                                            Some(lo) => {
                                                if !(0xDC00 <= lo && lo <= 0xDFFF) {
                                                    None
                                                } else {
                                                    sp_string_tail(
                                                        b,
                                                        i + 12,
                                                        acc + sp_scalar_bytes(
                                                            (0x10000 + (cp - 0xD800) * 0x400 + (
                                                            lo - 0xDC00)) as u32,
                                                        ),
                                                    )
                                                }
                                            },
                                        }
                                    }
                                } else if 0xDC00 <= cp && cp <= 0xDFFF {
                                    None
                                } else {
                                    sp_string_tail(b, i + 6, acc + sp_scalar_bytes(cp))
                                }
                            },
                        }
                    }
                } else {
                    None
                }
            }
        } else if c < 32 {
            None
        } else {
            sp_string_tail(b, i + 1, acc.push(c))
        }
    }
}

/// A whole JSON string whose opening quote stands at `i`: the decoded
/// text and the position after the closing quote.
pub open spec fn sp_string(b: Seq<u8>, i: int) -> Option<(Seq<char>, int)> {
    sp_string_tail(b, i + 1, Seq::empty())
}

/// Whether a byte can continue a JSON number token.
pub open spec fn is_number_byte(b: u8) -> bool {
    (48 <= b && b <= 57) || b == 43 || b == 45 || b == 46 || b == 101 || b == 69
}

/// The index just after the last consecutive number byte at or after
/// `i`.
pub open spec fn sp_num_end(b: Seq<u8>, i: int) -> int
    decreases b.len() - i,
{
    if !(0 <= i < b.len()) {
        b.len() as int
    } else if is_number_byte(b[i]) {
        sp_num_end(b, i + 1)
    } else {
        i
    }
}

/// Whether a number token carries a fraction or exponent marker.
pub open spec fn sp_is_float_token(t: Seq<u8>) -> bool {
    exists|j: int| 0 <= j < t.len() && ((#[trigger] t[j]) == 46 || t[j] == 101 || t[j] == 69)
}

/// The two's-complement reading of an unsigned 64-bit value.
pub open spec fn sp_wrap_i64(acc: u64) -> i64 {
    if acc <= i64::MAX as u64 {
        acc as i64
    } else {
        ((acc as int) - 0x10000000000000000) as i64
    }
}

/// The continuation of the wrapping decimal scan: all further bytes
/// must be digits and the value must fit an unsigned 64-bit integer,
/// which is then read as two's complement.
pub open spec fn sp_wrap_tail(t: Seq<u8>, i: int, acc: u64) -> Option<i64>
    decreases t.len() - i,
{
    if !(0 <= i) {
        None
    } else if i >= t.len() {
        Some(sp_wrap_i64(acc))
    } else {
        let b = t[i];
        if !(48 <= b && b <= 57) {
            None
        } else {
            let d = (b - 48) as u64;
            if acc > (u64::MAX - d) / 10 {
                None
            } else {
                sp_wrap_tail(t, i + 1, (acc * 10 + d) as u64)
            }
        }
    }
}

/// The wrapping unsigned decimal reading of a whole token.
pub open spec fn sp_wrap_bytes(t: Seq<u8>) -> Option<i64> {
    if t.len() == 0 {
        None
    } else {
        sp_wrap_tail(t, 0, 0)
    }
}

/// A JSON number token at `i`: its decimal text keeps as a `Float` when
/// it carries a fraction or exponent marker or fits no 64-bit integer
/// even after a two's-complement wrap; otherwise it reads as an `Int`.
pub open spec fn sp_number(b: Seq<u8>, i: int) -> Option<(ValueView, int)> {
    let end = sp_num_end(b, i);
    let t = b.subrange(i, end);
    if !(0 <= i < end && end <= b.len()) {
        None
    } else if !valid_utf8(t) {
        None
    } else {
        let text = decode_utf8(t);
        if sp_is_float_token(t) {
            Some((ValueView::Float(text), end))
        } else {
            match sp_parse_i64(text) {
                Some(v) => Some((ValueView::Int(v), end)),
                None => match sp_wrap_bytes(t) {
                    Some(v) => Some((ValueView::Int(v), end)),
                    None => Some((ValueView::Float(text), end)),
                },
            }
        }
    }
}

/// One JSON value at `i`: its model and the position after it, or
/// nothing where the bytes are not a value of the grammar.
pub open spec fn sp_value(b: Seq<u8>, i: int) -> Option<(ValueView, int)>
    decreases b.len() - i, 0int,
{
    if !(0 <= i < b.len()) {
        None
    } else {
        let c = b[i];
        if c == 110 {
            if i + 4 <= b.len() && b[i + 1] == 117 && b[i + 2] == 108 && b[i + 3] == 108 {
                Some((ValueView::Null, i + 4))
            } else {
                None
            }
        } else if c == 116 {
            if i + 4 <= b.len() && b[i + 1] == 114 && b[i + 2] == 117 && b[i + 3] == 101 {
                Some((ValueView::Bool(true), i + 4))
            } else {
                None
            }
        } else if c == 102 {
            if i + 5 <= b.len() && b[i + 1] == 97 && b[i + 2] == 108 && b[i + 3] == 115 && b[i + 4]
                == 101 {
                Some((ValueView::Bool(false), i + 5))
            } else {
                None
            }
        } else if c == 34 {
            match sp_string(b, i) {
                Some((s, p)) => Some((ValueView::String(s), p)),
                None => None,
            }
        } else if c == 91 {
            sp_array(b, i + 1)
        } else if c == 123 {
            sp_object(b, i + 1)
        } else if (48 <= c && c <= 57) || c == 45 {
            sp_number(b, i)
        } else {
            None
        }
    }
}

/// A JSON array whose opening bracket stands just before `i`.
pub open spec fn sp_array(b: Seq<u8>, i: int) -> Option<(ValueView, int)>
    decreases b.len() - i, 2int,
{
    if !(1 <= i <= b.len()) {
        None
    } else {
        let cur = sp_ws(b, i);
        if !(i <= cur <= b.len()) {
            None
        } else if cur < b.len() && b[cur] == 93 {
            Some((ValueView::Array(Seq::empty()), cur + 1))
        } else {
            sp_array_items(b, cur, Seq::empty())
        }
    }
}

/// The remaining elements of a JSON array, with the elements read so
/// far in `acc`: one value, then a comma and more elements or the
/// closing bracket.
pub open spec fn sp_array_items(b: Seq<u8>, cur: int, acc: Seq<ValueView>) -> Option<
    (ValueView, int),
>
    decreases b.len() - cur, 1int,
{
    if !(0 <= cur <= b.len()) {
        None
    } else {
        match sp_value(b, cur) {
            None => None,
            Some((v, p2)) => {
                if !(cur < p2 <= b.len()) {
                    None
                } else {
                    let c2 = sp_ws(b, p2);
                    if !(p2 <= c2 <= b.len()) {
                        None
                    } else if c2 >= b.len() {
                        None
                    } else if b[c2] == 93 {
                        Some((ValueView::Array(acc.push(v)), c2 + 1))
                    } else if b[c2] != 44 {
                        None
                    } else {
                        sp_array_items(b, c2 + 1, acc.push(v))
                    }
                }
            },
        }
    }
}

/// A JSON object whose opening brace stands just before `i`.
pub open spec fn sp_object(b: Seq<u8>, i: int) -> Option<(ValueView, int)>
    decreases b.len() - i, 2int,
{
    if !(1 <= i <= b.len()) {
        None
    } else {
        let cur = sp_ws(b, i);
        if !(i <= cur <= b.len()) {
            None
        } else if cur < b.len() && b[cur] == 125 {
            Some((ValueView::Object(Seq::empty()), cur + 1))
        } else {
            sp_object_items(b, cur, Seq::empty())
        }
    }
}

/// The remaining entries of a JSON object, with the entries read so far
/// in `acc`: a quoted key, a colon, a value, then a comma and more
/// entries or the closing brace. A later duplicate key replaces the
/// earlier value in place.
pub open spec fn sp_object_items(
    b: Seq<u8>,
    cur: int,
    acc: Seq<(Seq<char>, ValueView)>,
) -> Option<(ValueView, int)>
    decreases b.len() - cur, 1int,
{
    if !(0 <= cur <= b.len()) {
        None
    } else if cur >= b.len() || b[cur] != 34 {
        None
    } else {
        match sp_string(b, cur) {
            None => None,
            Some((key, pk)) => {
                if !(cur < pk <= b.len()) {
                    None
                } else {
                    let pc = sp_ws(b, pk);
                    if !(pk <= pc <= b.len()) {
                        None
                    } else if pc >= b.len() || b[pc] != 58 {
                        None
                    } else {
                        let pv = sp_ws(b, pc + 1);
                        if !(pc + 1 <= pv <= b.len()) {
                            None
                        } else {
                            match sp_value(b, pv) {
                                None => None,
                                Some((v, p2)) => {
                                    if !(pv < p2 <= b.len()) {
                                        None
                                    } else {
                                        let acc2 = sp_insert(acc, key, v);
                                        let c2 = sp_ws(b, p2);
                                        if !(p2 <= c2 <= b.len()) {
                                            None
                                        } else if c2 >= b.len() {
                                            None
                                        } else if b[c2] == 125 {
                                            Some((ValueView::Object(acc2), c2 + 1))
                                        } else if b[c2] != 44 {
                                            None
                                        } else {
                                            let nxt = sp_ws(b, c2 + 1);
                                            if !(c2 + 1 <= nxt <= b.len()) {
                                                None
                                            } else {
                                                sp_object_items(b, nxt, acc2)
                                            }
                                        }
                                    }
                                },
                            }
                        }
                    }
                }
            },
        }
    }
}

/// The next record under the two stream segmentations: inside a
/// top-level array (`expect_end`), a comma or the closing bracket must
/// follow the previous record; outside, a leading `[` opens array mode,
/// an immediate `]` ends an empty stream, and any other byte begins a
/// whitespace-delimited value. The result carries the record (or the
/// end of the stream), the offset after it, and the new array-mode
/// flag; `None` stands at every malformed point, premature end of
/// buffer included.
pub open spec fn sp_read_value(b: Seq<u8>, pos: int, expect_end: bool) -> Option<
    (Option<ValueView>, int, bool),
> {
    if !(0 <= pos <= b.len()) {
        None
    } else if expect_end {
        let p = sp_ws(b, pos);
        if p >= b.len() {
            None
        } else if b[p] == 44 {
            match sp_value(b, p + 1) {
                Some((v, p2)) => Some((Some(v), p2, true)),
                None => None,
            }
        } else if b[p] == 93 {
            let q = sp_ws(b, p + 1);
            if q >= b.len() {
                Some((None, q, true))
            } else {
                match sp_value(b, q) {
                    Some((v, p2)) => Some((Some(v), p2, false)),
                    None => None,
                }
            }
        } else {
            None
        }
    } else {
        let p = sp_ws(b, pos);
        if p >= b.len() {
            Some((None, p, false))
        } else if b[p] == 91 {
            let q = sp_ws(b, p + 1);
            if q >= b.len() {
                None
            } else if b[q] == 93 {
                Some((None, q + 1, false))
            } else {
                match sp_value(b, q) {
                    Some((v, p2)) => Some((Some(v), p2, true)),
                    None => None,
                }
            }
        } else {
            match sp_value(b, p) {
                Some((v, p2)) => Some((Some(v), p2, false)),
                None => None,
            }
        }
    }
}

/// A record as the reader yields it: dot-path flattened when the option
/// is set, untouched otherwise.
pub open spec fn sp_flatten_record(v: ValueView, flat: bool) -> ValueView {
    if flat {
        match v {
            ValueView::Object(es) => ValueView::Object(crate::flatten::sp_flatten(es)),
            _ => v,
        }
    } else {
        v
    }
}

/// The logical records from scanner state `(pos, ee)` to the end of the
/// stream or the first malformed point.
pub open spec fn sp_records_from(b: Seq<u8>, pos: int, ee: bool, flat: bool) -> Seq<ValueView>
    decreases b.len() - pos,
{
    if !(0 <= pos <= b.len()) {
        Seq::empty()
    } else {
        match sp_read_value(b, pos, ee) {
            None => Seq::empty(),
            Some((None, _, _)) => Seq::empty(),
            Some((Some(v), p2, e2)) => {
                if !(pos < p2 <= b.len()) {
                    Seq::empty()
                } else {
                    seq![sp_flatten_record(v, flat)] + sp_records_from(b, p2, e2, flat)
                }
            },
        }
    }
}

/// Whether the stream from scanner state `(pos, ee)` ends cleanly after
/// its last record, rather than in malformed bytes.
pub open spec fn sp_complete_from(b: Seq<u8>, pos: int, ee: bool) -> bool
    decreases b.len() - pos,
{
    if !(0 <= pos <= b.len()) {
        false
    } else {
        match sp_read_value(b, pos, ee) {
            None => false,
            Some((None, _, _)) => true,
            Some((Some(_), p2, e2)) => {
                if !(pos < p2 <= b.len()) {
                    false
                } else {
                    sp_complete_from(b, p2, e2)
                }
            },
        }
    }
}

/// The index of the first byte at or after `pos` that is not
/// whitespace, as `sp_ws` describes it.
pub fn read_skipping_ws(buf: &Vec<u8>, pos: usize) -> (r: usize)
    requires
        pos <= buf@.len(),
    ensures
        r as int == sp_ws(buf@, pos as int),
        pos <= r <= buf@.len(),
        forall|j: int| pos <= j < r ==> is_ws(#[trigger] buf@[j]),
        r < buf@.len() ==> !is_ws(buf@[r as int]),
{
    let mut i = pos;
    while i < buf.len()
        invariant
            pos <= i <= buf@.len(),
            sp_ws(buf@, pos as int) == sp_ws(buf@, i as int),
            forall|j: int| pos <= j < i ==> is_ws(#[trigger] buf@[j]),
        decreases buf@.len() - i,
    {
        let b = buf[i];
        if !(b == 32 || b == 9 || b == 10 || b == 12 || b == 13) {
            return i;
        }
        i = i + 1;
    }
    i
}

/// One parsed JSON string, as `sp_string` describes it: the decoded
/// text and the position after the closing quote.
fn parse_string(buf: &Vec<u8>, pos: usize) -> (r: Result<(String, usize), Error>)
    requires
        pos < buf@.len(),
        buf@[pos as int] == 34,
    ensures
        match r {
            Ok((s, p2)) => sp_string(buf@, pos as int) == Some((s@, p2 as int)) && pos < p2
                <= buf@.len(),
            Err(_) => sp_string(buf@, pos as int) is None,
        },
{
    let n = buf.len();
    let mut bytes: Vec<u8> = Vec::new();
    let mut i = pos + 1;
    while i < n
        invariant
            n == buf@.len(),
            pos < i <= buf@.len(),
            sp_string_tail(buf@, i as int, bytes@) == sp_string(buf@, pos as int),
        decreases buf@.len() - i,
    {
        let b = buf[i];
        if b == 34 {
            match string_from_utf8(bytes) {
                Some(s) => {
                    return Ok((s, i + 1));
                },
                None => {
                    return Err(Error::CustomError("invalid UTF-8 in string".to_owned()));
                },
            }
        } else if b == 92 {
            if n - i < 2 {
                return Err(Error::CustomError("unterminated escape".to_owned()));
            }
            let e = buf[i + 1];
            if e == 34 {
                bytes.push(34);
                i = i + 2;
            } else if e == 92 {
                bytes.push(92);
                i = i + 2;
            } else if e == 47 {
                bytes.push(47);
                i = i + 2;
            } else if e == 98 {
                bytes.push(8);
                i = i + 2;
            } else if e == 102 {
                bytes.push(12);
                i = i + 2;
            } else if e == 110 {
                bytes.push(10);
                i = i + 2;
            } else if e == 114 {
                bytes.push(13);
                i = i + 2;
            } else if e == 116 {
                bytes.push(9);
                i = i + 2;
            } else if e == 117 {
                if n - i < 6 {
                    return Err(Error::CustomError("unterminated unicode escape".to_owned()));
                }
                let cp = match parse_hex4(buf, i + 2) {
                    Ok(v) => v,
                    Err(er) => {
                        return Err(er);
                    },
                };
                if 0xD800 <= cp && cp <= 0xDBFF {
                    if n - i < 12 || buf[i + 6] != 92 || buf[i + 7] != 117 {
                        return Err(Error::CustomError("unpaired surrogate".to_owned()));
                    }
                    let lo = match parse_hex4(buf, i + 8) {
                        Ok(v) => v,
                        Err(er) => {
                            return Err(er);
                        },
                    };
                    if !(0xDC00 <= lo && lo <= 0xDFFF) {
                        return Err(Error::CustomError("unpaired surrogate".to_owned()));
                    }
                    let scalar: u32 = 0x10000 + (cp - 0xD800) * 0x400 + (lo - 0xDC00);
                    push_scalar_utf8(&mut bytes, scalar);
                    i = i + 12;
                } else if 0xDC00 <= cp && cp <= 0xDFFF {
                    return Err(Error::CustomError("unpaired surrogate".to_owned()));
                } else {
                    push_scalar_utf8(&mut bytes, cp);
                    i = i + 6;
                }
            } else {
                return Err(Error::CustomError("invalid escape".to_owned()));
            }
        } else if b < 32 {
            return Err(Error::CustomError("control character in string".to_owned()));
        } else {
            bytes.push(b);
            i = i + 1;
        }
    }
    Err(Error::CustomError("unterminated string".to_owned()))
}

/// The value of four hexadecimal digit bytes, as `sp_hex4` describes
/// it.
fn parse_hex4(buf: &Vec<u8>, pos: usize) -> (r: Result<u32, Error>)
    requires
        pos + 4 <= buf@.len(),
    ensures
        match r {
            Ok(v) => sp_hex4(buf@, pos as int) == Some(v) && v < 0x10000,
            Err(_) => sp_hex4(buf@, pos as int) is None,
        },
{
    let n = buf.len();
    let d0 = match hex_val(buf[pos]) {
        Some(d) => d,
        None => {
            return Err(Error::CustomError("invalid hex digit".to_owned()));
        },
    };
    let d1 = match hex_val(buf[pos + 1]) {
        Some(d) => d,
        None => {
            return Err(Error::CustomError("invalid hex digit".to_owned()));
        },
    };
    let d2 = match hex_val(buf[pos + 2]) {
        Some(d) => d,
        None => {
            return Err(Error::CustomError("invalid hex digit".to_owned()));
        },
    };
    let d3 = match hex_val(buf[pos + 3]) {
        Some(d) => d,
        None => {
            return Err(Error::CustomError("invalid hex digit".to_owned()));
        },
    };
    Ok((((d0 * 16 + d1) * 16 + d2) * 16 + d3))
}

/// The value of one hexadecimal digit byte, as `sp_hex_val` describes
/// it.
fn hex_val(b: u8) -> (r: Option<u32>)
    ensures
        r == sp_hex_val(b),
        r matches Some(v) ==> v < 16,
{
    if 48 <= b && b <= 57 {
        Some((b - 48) as u32)
    } else if 97 <= b && b <= 102 {
        Some((b - 87) as u32)
    } else if 65 <= b && b <= 70 {
        Some((b - 55) as u32)
    } else {
        None
    }
}

/// Append the UTF-8 encoding of one Unicode scalar value, as
/// `sp_scalar_bytes` describes it.
fn push_scalar_utf8(bytes: &mut Vec<u8>, cp: u32)
    requires
        cp < 0x110000,
    ensures
        final(bytes)@ == old(bytes)@ + sp_scalar_bytes(cp),
{
    if cp < 0x80 {
        bytes.push(cp as u8);
    } else if cp < 0x800 {
        bytes.push((0xC0 | (cp / 0x40)) as u8);
        bytes.push((0x80 | (cp % 0x40)) as u8);
    } else if cp < 0x10000 {
        bytes.push((0xE0 | (cp / 0x1000)) as u8);
        bytes.push((0x80 | ((cp / 0x40) % 0x40)) as u8);
        bytes.push((0x80 | (cp % 0x40)) as u8);
    } else {
        bytes.push((0xF0 | (cp / 0x40000)) as u8);
        bytes.push((0x80 | ((cp / 0x1000) % 0x40)) as u8);
        bytes.push((0x80 | ((cp / 0x40) % 0x40)) as u8);
        bytes.push((0x80 | (cp % 0x40)) as u8);
    }
    proof {
        assert(bytes@ =~= old(bytes)@ + sp_scalar_bytes(cp));
    }
}

/// The index just after the last consecutive number byte, as
/// `sp_num_end` describes it.
fn scan_number_end(buf: &Vec<u8>, pos: usize) -> (r: usize)
    requires
        pos <= buf@.len(),
    ensures
        r as int == sp_num_end(buf@, pos as int),
        pos <= r <= buf@.len(),
        forall|j: int| pos <= j < r ==> is_number_byte(#[trigger] buf@[j]),
{
    let mut i = pos;
    while i < buf.len()
        invariant
            pos <= i <= buf@.len(),
            sp_num_end(buf@, pos as int) == sp_num_end(buf@, i as int),
            forall|j: int| pos <= j < i ==> is_number_byte(#[trigger] buf@[j]),
        decreases buf@.len() - i,
    {
        let b = buf[i];
        if !(48 <= b && b <= 57) && b != 43 && b != 45 && b != 46 && b != 101 && b != 69 {
            return i;
        }
        i = i + 1;
    }
    i
}

/// One parsed JSON number, as `sp_number` describes it.
fn parse_number(buf: &Vec<u8>, pos: usize) -> (r: Result<(Value, usize), Error>)
    requires
        pos < buf@.len(),
    ensures
        match r {
            Ok((v, p2)) => sp_number(buf@, pos as int) == Some((v@, p2 as int)) && pos < p2
                <= buf@.len() && value_wf(v@),
            Err(_) => sp_number(buf@, pos as int) is None,
        },
{
    let i = scan_number_end(buf, pos);
    let ghost end = sp_num_end(buf@, pos as int);
    let mut is_float = false;
    let mut token: Vec<u8> = Vec::new();
    let mut j = pos;
    while j < i
        invariant
            pos <= j <= i <= buf@.len(),
            i as int == end,
            end == sp_num_end(buf@, pos as int),
            token@ =~= buf@.subrange(pos as int, j as int),
            forall|l: int| 0 <= l < token@.len() ==> #[trigger] token@[l] < 0x80,
            forall|l: int| pos <= l < i ==> is_number_byte(#[trigger] buf@[l]),
            is_float == sp_is_float_token(token@),
        decreases i - j,
    {
        let b = buf[j];
        let ghost told = token@;
        if b == 46 || b == 101 || b == 69 {
            is_float = true;
        }
        token.push(b);
        proof {
            assert(token@ =~= buf@.subrange(pos as int, j as int + 1));
            if (b == 46 || b == 101 || b == 69) && !sp_is_float_token(told) {
                assert(token@[told.len() as int] == b);
                assert(sp_is_float_token(token@));
            }
            if sp_is_float_token(token@) && !sp_is_float_token(told) {
                let w = choose|w: int|
                    0 <= w < token@.len() && ((#[trigger] token@[w]) == 46 || token@[w] == 101
                        || token@[w] == 69);
                if w < told.len() {
                    assert(told[w] == token@[w]);
                }
            }
        }
        j = j + 1;
    }
    proof {
        assert(token@ =~= buf@.subrange(pos as int, end));
    }
    if i == pos {
        return Err(Error::CustomError("invalid number".to_owned()));
    }
    proof {
        crate::jsontext::lemma_ascii_bytes_valid(token@);
    }
    let wrapped = parse_wrapping_bytes(&token);
    let text = match string_from_utf8(token) {
        Some(s) => s,
        None => {
            return Err(Error::CustomError("invalid number".to_owned()));
        },
    };
    if is_float {
        return Ok((Value::Float(text), i));
    }
    match parse_integer(text.as_str()) {
        Ok(v) => Ok((Value::Int(v), i)),
        Err(_) => {
            match wrapped {
                Some(v) => Ok((Value::Int(v), i)),
                None => Ok((Value::Float(text), i)),
            }
        },
    }
}

/// The wrapping unsigned decimal reading of a token, as
/// `sp_wrap_bytes` describes it.
fn parse_wrapping_bytes(token: &Vec<u8>) -> (r: Option<i64>)
    ensures
        r == sp_wrap_bytes(token@),
{
    let mut acc: u64 = 0;
    let mut i: usize = 0;
    if token.len() == 0 {
        return None;
    }
    while i < token.len()
        invariant
            i <= token@.len(),
            token@.len() > 0,
            sp_wrap_tail(token@, i as int, acc) == sp_wrap_bytes(token@),
        decreases token@.len() - i,
    {
        let b = token[i];
        if !(48 <= b && b <= 57) {
            return None;
        }
        let d = (b - 48) as u64;
        if acc > (u64::MAX - d) / 10 {
            return None;
        }
        acc = acc * 10 + d;
        i = i + 1;
    }
    if acc <= 9223372036854775807u64 {
        Some(acc as i64)
    } else {
        let lower = acc - 9223372036854775808u64;
        Some(i64::MIN + (lower as i64))
    }
}

/// One parsed JSON value starting at `pos`, as `sp_value` describes it:
/// the value those bytes spell and the position after it, with
/// unbounded nesting depth, or an error exactly where the bytes are not
/// a value of the grammar.
pub fn parse_value(buf: &Vec<u8>, pos: usize) -> (r: Result<(Value, usize), Error>)
    requires
        pos <= buf@.len(),
    ensures
        match r {
            Ok((v, p2)) => sp_value(buf@, pos as int) == Some((v@, p2 as int)) && pos < p2
                <= buf@.len() && value_wf(v@),
            Err(_) => sp_value(buf@, pos as int) is None,
        },
    decreases buf@.len() - pos, 0int,
{
    let n = buf.len();
    if pos >= n {
        return Err(Error::CustomError("expected a value, found end of input".to_owned()));
    }
    let b = buf[pos];
    if b == 110 {
        if n - pos >= 4 && buf[pos + 1] == 117 && buf[pos + 2] == 108 && buf[pos + 3] == 108 {
            Ok((Value::Null, pos + 4))
        } else {
            Err(Error::CustomError("invalid literal".to_owned()))
        }
    } else if b == 116 {
        if n - pos >= 4 && buf[pos + 1] == 114 && buf[pos + 2] == 117 && buf[pos + 3] == 101 {
            Ok((Value::Bool(true), pos + 4))
        } else {
            Err(Error::CustomError("invalid literal".to_owned()))
        }
    } else if b == 102 {
        if n - pos >= 5 && buf[pos + 1] == 97 && buf[pos + 2] == 108 && buf[pos + 3] == 115
            && buf[pos + 4] == 101 {
            Ok((Value::Bool(false), pos + 5))
        } else {
            Err(Error::CustomError("invalid literal".to_owned()))
        }
    } else if b == 34 {
        match parse_string(buf, pos) {
            Ok((s, p2)) => Ok((Value::String(s), p2)),
            Err(e) => Err(e),
        }
    } else if b == 91 {
        parse_array(buf, pos + 1)
    } else if b == 123 {
        parse_object(buf, pos + 1)
    } else if (48 <= b && b <= 57) || b == 45 {
        parse_number(buf, pos)
    } else {
        Err(Error::CustomError("unexpected byte at start of value".to_owned()))
    }
}

/// The elements of a JSON array whose opening bracket stands just
/// before `pos`, as `sp_array` describes them.
fn parse_array(buf: &Vec<u8>, pos: usize) -> (r: Result<(Value, usize), Error>)
    requires
        1 <= pos <= buf@.len(),
    ensures
        match r {
            Ok((v, p2)) => sp_array(buf@, pos as int) == Some((v@, p2 as int)) && pos <= p2
                <= buf@.len() && value_wf(v@),
            Err(_) => sp_array(buf@, pos as int) is None,
        },
    decreases buf@.len() - pos, 1int,
{
    let mut items: Vec<Value> = Vec::new();
    let mut cur = read_skipping_ws(buf, pos);
    if cur < buf.len() && buf[cur] == 93 {
        proof {
            lemma_values_view(items@);
            assert(values_view(items@) =~= Seq::<ValueView>::empty());
        }
        return Ok((Value::Array(items), cur + 1));
    }
    proof {
        assert(sp_array(buf@, pos as int) == sp_array_items(
            buf@,
            cur as int,
            values_view(items@),
        ));
    }
    loop
        invariant
            pos <= cur <= buf@.len(),
            forall|j: int| 0 <= j < items@.len() ==> value_wf(#[trigger] items@[j]@),
            sp_array_items(buf@, cur as int, values_view(items@)) == sp_array(buf@, pos as int),
        decreases buf@.len() - cur,
    {
        proof {
            lemma_values_view(items@);
        }
        let (v, p2) = match parse_value(buf, cur) {
            Ok(x) => x,
            Err(e) => {
                return Err(e);
            },
        };
        let ghost items_old = items@;
        items.push(v);
        proof {
            lemma_values_view(items@);
            crate::value::lemma_values_view(items_old);
            assert(values_view(items@) =~= values_view(items_old).push(v@));
        }
        cur = read_skipping_ws(buf, p2);
        if cur >= buf.len() {
            return Err(Error::CustomError("unterminated array".to_owned()));
        }
        let b = buf[cur];
        if b == 93 {
            return Ok((Value::Array(items), cur + 1));
        }
        if b != 44 {
            return Err(Error::CustomError("expected `,` or `]` in array".to_owned()));
        }
        cur = cur + 1;
    }
}

/// The entries of a JSON object whose opening brace stands just before
/// `pos`, as `sp_object` describes them.
fn parse_object(buf: &Vec<u8>, pos: usize) -> (r: Result<(Value, usize), Error>)
    requires
        1 <= pos <= buf@.len(),
    ensures
        match r {
            Ok((v, p2)) => sp_object(buf@, pos as int) == Some((v@, p2 as int)) && pos <= p2
                <= buf@.len() && value_wf(v@),
            Err(_) => sp_object(buf@, pos as int) is None,
        },
    decreases buf@.len() - pos, 1int,
{
    let mut entries: Vec<(String, Value)> = Vec::new();
    let mut cur = read_skipping_ws(buf, pos);
    if cur < buf.len() && buf[cur] == 125 {
        proof {
            lemma_entries_view(entries@);
            assert(entries_view(entries@) =~= Seq::<(Seq<char>, ValueView)>::empty());
        }
        return Ok((Value::Object(entries), cur + 1));
    }
    proof {
        assert(sp_object(buf@, pos as int) == sp_object_items(
            buf@,
            cur as int,
            entries_view(entries@),
        ));
    }
    loop
        invariant
            pos <= cur <= buf@.len(),
            distinct_keys(entries_view(entries@)),
            forall|j: int| 0 <= j < entries_view(entries@).len() ==> value_wf(
                (#[trigger] entries_view(entries@)[j]).1,
            ),
            sp_object_items(buf@, cur as int, entries_view(entries@)) == sp_object(
                buf@,
                pos as int,
            ),
        decreases buf@.len() - cur,
    {
        if cur >= buf.len() || buf[cur] != 34 {
            return Err(Error::CustomError("expected a key in object".to_owned()));
        }
        let (key, pk) = match parse_string(buf, cur) {
            Ok(x) => x,
            Err(e) => {
                return Err(e);
            },
        };
        let pc = read_skipping_ws(buf, pk);
        if pc >= buf.len() || buf[pc] != 58 {
            return Err(Error::CustomError("expected `:` in object".to_owned()));
        }
        let pv = read_skipping_ws(buf, pc + 1);
        let (v, p2) = match parse_value(buf, pv) {
            Ok(x) => x,
            Err(e) => {
                return Err(e);
            },
        };
        let ghost before = entries_view(entries@);
        obj_insert(&mut entries, key, v);
        proof {
            lemma_insert_wf(before, key@, v@);
        }
        cur = read_skipping_ws(buf, p2);
        if cur >= buf.len() {
            return Err(Error::CustomError("unterminated object".to_owned()));
        }
        let b = buf[cur];
        if b == 125 {
            return Ok((Value::Object(entries), cur + 1));
        }
        if b != 44 {
            return Err(Error::CustomError("expected `,` or `}` in object".to_owned()));
        }
        cur = read_skipping_ws(buf, cur + 1);
    }
}

/// The next record in a byte buffer, as `sp_read_value` describes it:
/// a single top-level JSON array of records or whitespace-delimited
/// records, detected from the first bytes. The result carries the value
/// (or the end of the stream), the new offset, and whether the scanner
/// now stands inside a top-level array awaiting a comma or closing
/// bracket; an error comes exactly at a malformed point.
pub fn read_value(buf: &Vec<u8>, pos: usize, expect_end: bool) -> (r: Result<
    (Option<Value>, usize, bool),
    Error,
>)
    requires
        pos <= buf@.len(),
    ensures
        match r {
            Ok((v, p2, e2)) => pos <= p2 <= buf@.len() && (match v {
                Some(w) => sp_read_value(buf@, pos as int, expect_end) == Some(
                    (Some(w@), p2 as int, e2),
                ) && p2 > pos && value_wf(w@),
                None => sp_read_value(buf@, pos as int, expect_end) == Some(
                    (None::<ValueView>, p2 as int, e2),
                ),
            }),
            Err(_) => sp_read_value(buf@, pos as int, expect_end) is None,
        },
{
    if expect_end {
        let p = read_skipping_ws(buf, pos);
        if p >= buf.len() {
            return Err(
                Error::CustomError("Expected `,` or `]` after a value, found end of file.".to_owned()),
            );
        }
        let b = buf[p];
        if b == 44 {
            match parse_value(buf, p + 1) {
                Ok((v, p2)) => Ok((Some(v), p2, true)),
                Err(e) => Err(e),
            }
        } else if b == 93 {
            let q = read_skipping_ws(buf, p + 1);
            if q >= buf.len() {
                Ok((None, q, true))
            } else {
                match parse_value(buf, q) {
                    Ok((v, p2)) => Ok((Some(v), p2, false)),
                    Err(e) => Err(e),
                }
            }
        } else {
            Err(Error::CustomError("Expected `,` or `]` after a value.".to_owned()))
        }
    } else {
        let p = read_skipping_ws(buf, pos);
        if p >= buf.len() {
            return Ok((None, p, false));
        }
        let b = buf[p];
        if b == 91 {
            let q = read_skipping_ws(buf, p + 1);
            if q >= buf.len() {
                return Err(
                    Error::CustomError("Expected a JSON value, found end of stream".to_owned()),
                );
            }
            if buf[q] == 93 {
                return Ok((None, q + 1, false));
            }
            match parse_value(buf, q) {
                Ok((v, p2)) => Ok((Some(v), p2, true)),
                Err(e) => Err(e),
            }
        } else {
            match parse_value(buf, p) {
                Ok((v, p2)) => Ok((Some(v), p2, false)),
                Err(e) => Err(e),
            }
        }
    }
}

/// The incremental JSON record reader: a byte buffer, the offset of the
/// next unread byte, and whether the scanner stands inside a top-level
/// array of records. Its logical record sequence is `sp_records_from`
/// over the whole buffer, and its cursor never moves past a clean end
/// or a malformed point.
pub struct RecordReader {
    pub buf: Vec<u8>,
    pub offset: usize,
    pub expect_end: bool,
    pub flatten_objects: bool,
}

impl RecordReader {
    /// A reader over a whole buffer, positioned at its start.
    pub fn new(inner: Vec<u8>, opts: Options) -> (r: Result<RecordReader, Error>)
        ensures
            match r {
                Ok(rr) => {
                    &&& rr.buf@ == inner@
                    &&& rr.offset == 0
                    &&& rr.expect_end == false
                    &&& rr.flatten_objects == opts.flatten_objects
                    &&& <RecordReader as crate::reader::ValueReader>::wf(&rr)
                    &&& <RecordReader as crate::reader::ValueReader>::pos(&rr) == 0
                    &&& <RecordReader as crate::reader::ValueReader>::records(&rr)
                        == sp_records_from(inner@, 0, false, opts.flatten_objects)
                    &&& <RecordReader as crate::reader::ValueReader>::complete(&rr)
                        == sp_complete_from(inner@, 0, false)
                },
                Err(_) => false,
            },
    {
        let r = RecordReader {
            buf: inner,
            offset: 0,
            expect_end: false,
            flatten_objects: opts.flatten_objects,
        };
        proof {
            let total = sp_records_from(r.buf@, 0, false, r.flatten_objects);
            assert(total.skip(0) =~= total);
            assert(total.take(0) + total =~= total);
        }
        Ok(r)
    }
}

impl crate::reader::ValueReader for RecordReader {
    /// The records the buffer holds, flattened when the option is set.
    open spec fn records(&self) -> Seq<ValueView> {
        sp_records_from(self.buf@, 0, false, self.flatten_objects)
    }

    /// How many records the scanner has passed: the whole sequence less
    /// what remains from the current state.
    open spec fn pos(&self) -> int {
        sp_records_from(self.buf@, 0, false, self.flatten_objects).len() - sp_records_from(
            self.buf@,
            self.offset as int,
            self.expect_end,
            self.flatten_objects,
        ).len()
    }

    open spec fn complete(&self) -> bool {
        sp_complete_from(self.buf@, 0, false)
    }

    /// The scanner state is reachable: what remains from it is exactly
    /// the unconsumed suffix of the whole record sequence, and the
    /// stream's clean end looks the same from here as from the start.
    open spec fn wf(&self) -> bool {
        let total = sp_records_from(self.buf@, 0, false, self.flatten_objects);
        let rest = sp_records_from(
            self.buf@,
            self.offset as int,
            self.expect_end,
            self.flatten_objects,
        );
        &&& self.offset <= self.buf@.len()
        &&& rest.len() <= total.len()
        &&& total == total.take(total.len() - rest.len()) + rest
        &&& sp_complete_from(self.buf@, 0, false) == sp_complete_from(
            self.buf@,
            self.offset as int,
            self.expect_end,
        )
    }

    fn next(&mut self) -> (r: Result<Option<Value>, Error>) {
        let ghost total = sp_records_from(self.buf@, 0, false, self.flatten_objects);
        let ghost rest = sp_records_from(
            self.buf@,
            self.offset as int,
            self.expect_end,
            self.flatten_objects,
        );
        match read_value(&self.buf, self.offset, self.expect_end) {
            Ok((Some(v), p2, ee)) => {
                proof {
                    assert(rest == seq![
                        sp_flatten_record(v@, self.flatten_objects),
                    ] + sp_records_from(self.buf@, p2 as int, ee, self.flatten_objects));
                }
                self.offset = p2;
                self.expect_end = ee;
                let ghost rest2 = sp_records_from(
                    self.buf@,
                    p2 as int,
                    ee,
                    self.flatten_objects,
                );
                proof {
                    let p = total.len() - rest.len();
                    assert(rest.len() >= 1);
                    assert(total[p] == rest[0]) by {
                        assert(total == total.take(p) + rest);
                    }
                    assert(total.take(p + 1) =~= total.take(p) + seq![rest[0]]);
                    assert(total.take(p + 1) + rest2 =~= total.take(p) + rest);
                }
                if self.flatten_objects {
                    proof {
                        if v@ is Object {
                            crate::flatten::lemma_flatten_wf(v@->Object_0);
                        }
                    }
                    let flat = v.flatten_object();
                    Ok(Some(flat))
                } else {
                    Ok(Some(v))
                }
            },
            Ok((None, _, _)) => {
                proof {
                    assert(rest =~= Seq::<ValueView>::empty());
                    assert(total.take(total.len() as int) + rest =~= total);
                }
                Ok(None)
            },
            Err(e) => {
                proof {
                    assert(rest =~= Seq::<ValueView>::empty());
                }
                Err(e)
            },
        }
    }

    fn reset(&mut self) {
        self.offset = 0;
        self.expect_end = false;
        proof {
            let total = sp_records_from(self.buf@, 0, false, self.flatten_objects);
            assert(total.take(0) + total =~= total);
        }
    }
}

} // verus!
