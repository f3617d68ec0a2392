use crate::textnum::int_text;
use crate::textnum::int_to_string;
use crate::value::entries_view;
use crate::value::entry_view;
use crate::value::lemma_entries_view;
use crate::value::lemma_values_view;
use crate::value::values_view;
use crate::value::Value;
use crate::value::ValueView;
use vstd::prelude::*;
use vstd::string::StrSliceExecFns;
use vstd::utf8::codepoint_width_1;
use vstd::utf8::encode_utf8;
use vstd::utf8::is_continuation_byte;
use vstd::utf8::is_leading_byte_width_1;
use vstd::utf8::is_leading_byte_width_2;
use vstd::utf8::is_leading_byte_width_3;
use vstd::utf8::is_leading_byte_width_4;
use vstd::utf8::length_of_first_scalar;
use vstd::utf8::pop_first_scalar;
use vstd::utf8::valid_first_scalar;
use vstd::utf8::valid_utf8;

verus! {

/// The lowercase hexadecimal digit byte for one digit value.
pub open spec fn sp_hex_digit(d: int) -> u8 {
    if d < 10 {
        (48 + d) as u8
    } else {
        (87 + d) as u8
    }
}

/// The JSON escape of one byte of UTF-8 text: quotes and backslashes are
/// escaped, the named control characters take their short escapes, every
/// other control character takes a `\u00..` escape, and every other byte
/// passes through unchanged.
pub open spec fn sp_escape_byte(b: u8) -> Seq<u8> {
    if b == 34 {
        seq![92u8, 34u8]
    } else if b == 92 {
        seq![92u8, 92u8]
    } else if b == 8 {
        seq![92u8, 98u8]
    } else if b == 12 {
        seq![92u8, 102u8]
    } else if b == 10 {
        seq![92u8, 110u8]
    } else if b == 13 {
        seq![92u8, 114u8]
    } else if b == 9 {
        seq![92u8, 116u8]
    } else if b < 32 {
        seq![92u8, 117u8, 48u8, 48u8, sp_hex_digit(b as int / 16), sp_hex_digit(b as int % 16)]
    } else {
        seq![b]
    }
}

/// The JSON escape of a byte sequence, byte by byte.
pub open spec fn sp_escape_bytes(bs: Seq<u8>) -> Seq<u8>
    decreases bs.len(),
{
    if bs.len() == 0 {
        Seq::empty()
    } else {
        sp_escape_bytes(bs.drop_last()) + sp_escape_byte(bs.last())
    }
}

/// The JSON text of a string: its UTF-8 bytes escaped, between quotes.
pub open spec fn sp_json_string(s: Seq<char>) -> Seq<u8> {
    seq![34u8] + sp_escape_bytes(encode_utf8(s)) + seq![34u8]
}

/// The JSON text of a value, as compact JSON renders it: objects keep
/// their entry order, floats keep their decimal text, and a binary blob
/// renders as the array of its byte values.
pub open spec fn json_of(v: ValueView) -> Seq<u8>
    decreases v, 2int,
{
    match v {
        ValueView::Null => seq![110u8, 117u8, 108u8, 108u8],
        ValueView::Bool(b) => if b {
            seq![116u8, 114u8, 117u8, 101u8]
        } else {
            seq![102u8, 97u8, 108u8, 115u8, 101u8]
        },
        ValueView::Int(i) => encode_utf8(int_text(i as int)),
        ValueView::Float(t) => encode_utf8(t),
        ValueView::String(s) => sp_json_string(s),
        ValueView::Array(vs) => seq![91u8] + sp_json_items(vs) + seq![93u8],
        ValueView::Object(es) => seq![123u8] + sp_json_entries(es) + seq![125u8],
        ValueView::Binary(bs) => seq![91u8] + sp_json_byte_items(bs) + seq![93u8],
    }
}

/// The comma-separated JSON texts of an array's elements.
pub open spec fn sp_json_items(vs: Seq<ValueView>) -> Seq<u8>
    decreases vs, 0int,
{
    if vs.len() == 0 {
        Seq::empty()
    } else if vs.len() == 1 {
        json_of(vs[0])
    } else {
        json_of(vs[0]) + seq![44u8] + sp_json_items(vs.drop_first())
    }
}

/// The JSON text of one object entry: the quoted escaped key, a colon,
/// then the value.
pub open spec fn sp_json_entry(e: (Seq<char>, ValueView)) -> Seq<u8>
    decreases e, 1int,
{
    sp_json_string(e.0) + seq![58u8] + json_of(e.1)
}

/// The comma-separated JSON texts of an object's entries.
pub open spec fn sp_json_entries(es: Seq<(Seq<char>, ValueView)>) -> Seq<u8>
    decreases es, 0int,
{
    if es.len() == 0 {
        Seq::empty()
    } else if es.len() == 1 {
        sp_json_entry(es[0])
    } else {
        sp_json_entry(es[0]) + seq![44u8] + sp_json_entries(es.drop_first())
    }
}

/// The comma-separated decimal texts of a binary blob's bytes.
pub open spec fn sp_json_byte_items(bs: Seq<u8>) -> Seq<u8>
    decreases bs.len(),
{
    if bs.len() == 0 {
        Seq::empty()
    } else if bs.len() == 1 {
        encode_utf8(int_text(bs[0] as int))
    } else {
        encode_utf8(int_text(bs[0] as int)) + seq![44u8] + sp_json_byte_items(bs.drop_first())
    }
}

/// Append every byte of a vector.
pub fn push_all(out: &mut Vec<u8>, bytes: &Vec<u8>)
    ensures
        final(out)@ == old(out)@ + bytes@,
{
    let mut i: usize = 0;
    proof {
        assert(out@ =~= old(out)@ + bytes@.take(0));
    }
    while i < bytes.len()
        invariant
            i <= bytes@.len(),
            out@ == old(out)@ + bytes@.take(i as int),
        decreases bytes@.len() - i,
    {
        out.push(bytes[i]);
        proof {
            assert(old(out)@ + bytes@.take(i as int + 1) =~= (old(out)@ + bytes@.take(i as int)).push(
                bytes@[i as int],
            ));
        }
        i = i + 1;
    }
    proof {
        assert(bytes@.take(bytes@.len() as int) =~= bytes@);
    }
}

/// The lowercase hexadecimal digit byte, as `sp_hex_digit` describes it.
fn hex_digit(d: u8) -> (r: u8)
    requires
        d < 16,
    ensures
        r == sp_hex_digit(d as int),
{
    if d < 10 {
        48 + d
    } else {
        87 + d
    }
}

/// Append the decimal text of an integer.
pub fn push_int(out: &mut Vec<u8>, i: i64)
    ensures
        final(out)@ == old(out)@ + encode_utf8(int_text(i as int)),
{
    let s = int_to_string(i);
    let bytes = s.as_str().as_bytes_vec();
    push_all(out, &bytes);
}

/// Append the quoted, escaped JSON text of a string.
pub fn push_json_string(out: &mut Vec<u8>, s: &str)
    ensures
        final(out)@ == old(out)@ + sp_json_string(s@),
{
    let bytes = s.as_bytes_vec();
    let ghost base = out@;
    out.push(34u8);
    let mut i: usize = 0;
    proof {
        assert(sp_escape_bytes(bytes@.take(0)) =~= Seq::<u8>::empty());
        assert(out@ =~= base + seq![34u8] + sp_escape_bytes(bytes@.take(0)));
    }
    while i < bytes.len()
        invariant
            i <= bytes@.len(),
            out@ == base + seq![34u8] + sp_escape_bytes(bytes@.take(i as int)),
        decreases bytes@.len() - i,
    {
        let b = bytes[i];
        let ghost before = out@;
        proof {
            assert(bytes@.take(i as int + 1).drop_last() =~= bytes@.take(i as int));
            assert(bytes@.take(i as int + 1).last() == bytes@[i as int]);
        }
        if b == 34 {
            out.push(92u8);
            out.push(34u8);
        } else if b == 92 {
            out.push(92u8);
            out.push(92u8);
        } else if b == 8 {
            out.push(92u8);
            out.push(98u8);
        } else if b == 12 {
            out.push(92u8);
            out.push(102u8);
        } else if b == 10 {
            out.push(92u8);
            out.push(110u8);
        } else if b == 13 {
            out.push(92u8);
            out.push(114u8);
        } else if b == 9 {
            out.push(92u8);
            out.push(116u8);
        } else if b < 32 {
            out.push(92u8);
            out.push(117u8);
            out.push(48u8);
            out.push(48u8);
            out.push(hex_digit(b / 16));
            out.push(hex_digit(b % 16));
        } else {
            out.push(b);
        }
        proof {
            assert(out@ =~= before + sp_escape_byte(b));
            assert(out@ =~= base + seq![34u8] + sp_escape_bytes(bytes@.take(i as int + 1)));
        }
        i = i + 1;
    }
    out.push(34u8);
    proof {
        assert(bytes@.take(bytes@.len() as int) =~= bytes@);
        assert(out@ =~= base + sp_json_string(s@));
    }
}

/// Append the JSON text of a value, as `json_of` describes it.
pub fn write_json(v: &Value, out: &mut Vec<u8>)
    ensures
        final(out)@ == old(out)@ + json_of(v@),
    decreases *v, 2int, 0int,
{
    match v {
        Value::Null => {
            out.push(110u8);
            out.push(117u8);
            out.push(108u8);
            out.push(108u8);
            proof {
                assert(out@ =~= old(out)@ + json_of(v@));
            }
        },
        Value::Bool(b) => {
            if *b {
                out.push(116u8);
                out.push(114u8);
                out.push(117u8);
                out.push(101u8);
            } else {
                out.push(102u8);
                out.push(97u8);
                out.push(108u8);
                out.push(115u8);
                out.push(101u8);
            }
            proof {
                assert(out@ =~= old(out)@ + json_of(v@));
            }
        },
        Value::Int(i) => {
            push_int(out, *i);
        },
        Value::Float(t) => {
            let bytes = t.as_str().as_bytes_vec();
            push_all(out, &bytes);
        },
        Value::String(s) => {
            push_json_string(out, s.as_str());
        },
        Value::Array(vs) => {
            out.push(91u8);
            write_items(vs, 0, out);
            out.push(93u8);
            proof {
                lemma_values_view(vs@);
                assert(values_view(vs@).skip(0) =~= values_view(vs@));
                assert(out@ =~= old(out)@ + json_of(v@));
            }
        },
        Value::Object(es) => {
            out.push(123u8);
            write_entries(es, 0, out);
            out.push(125u8);
            proof {
                lemma_entries_view(es@);
                assert(entries_view(es@).skip(0) =~= entries_view(es@));
                assert(out@ =~= old(out)@ + json_of(v@));
            }
        },
        Value::Binary(bs) => {
            out.push(91u8);
            write_byte_items(bs, 0, out);
            out.push(93u8);
            proof {
                assert(bs@.skip(0) =~= bs@);
                assert(out@ =~= old(out)@ + json_of(v@));
            }
        },
    }
}

/// Append the comma-separated JSON texts of the elements from `i` on.
fn write_items(vs: &Vec<Value>, i: usize, out: &mut Vec<u8>)
    requires
        i <= vs@.len(),
    ensures
        final(out)@ == old(out)@ + sp_json_items(values_view(vs@).skip(i as int)),
    decreases *vs, 0int, vs@.len() - i,
{
    proof {
        lemma_values_view(vs@);
    }
    let ghost tail = values_view(vs@).skip(i as int);
    if i < vs.len() {
        let item = &vs[i];
        proof {
            assert(tail[0] == values_view(vs@)[i as int]);
            assert(tail[0] == vs@[i as int]@);
            assert(tail.drop_first() =~= values_view(vs@).skip(i as int + 1));
        }
        write_json(item, out);
        if i + 1 < vs.len() {
            out.push(44u8);
            write_items(vs, i + 1, out);
            proof {
                assert(out@ =~= old(out)@ + sp_json_items(tail));
            }
        } else {
            proof {
                assert(tail.len() == 1);
                assert(out@ =~= old(out)@ + sp_json_items(tail));
            }
        }
    } else {
        proof {
            assert(tail.len() == 0);
            assert(out@ =~= old(out)@ + sp_json_items(tail));
        }
    }
}

/// Append the JSON text of one object entry.
fn write_entry(e: &(String, Value), out: &mut Vec<u8>)
    ensures
        final(out)@ == old(out)@ + sp_json_entry(entry_view(*e)),
    decreases *e, 1int, 0int,
{
    push_json_string(out, e.0.as_str());
    out.push(58u8);
    write_json(&e.1, out);
    proof {
        assert(out@ =~= old(out)@ + sp_json_entry(entry_view(*e)));
    }
}

/// Append the comma-separated JSON texts of the entries from `i` on.
fn write_entries(es: &Vec<(String, Value)>, i: usize, out: &mut Vec<u8>)
    requires
        i <= es@.len(),
    ensures
        final(out)@ == old(out)@ + sp_json_entries(entries_view(es@).skip(i as int)),
    decreases *es, 0int, es@.len() - i,
{
    proof {
        lemma_entries_view(es@);
    }
    let ghost tail = entries_view(es@).skip(i as int);
    if i < es.len() {
        let e = &es[i];
        proof {
            assert(tail[0] == entries_view(es@)[i as int]);
            assert(tail[0] == entry_view(es@[i as int]));
            assert(tail.drop_first() =~= entries_view(es@).skip(i as int + 1));
        }
        write_entry(e, out);
        if i + 1 < es.len() {
            out.push(44u8);
            write_entries(es, i + 1, out);
            proof {
                assert(out@ =~= old(out)@ + sp_json_entries(tail));
            }
        } else {
            proof {
                assert(tail.len() == 1);
                assert(out@ =~= old(out)@ + sp_json_entries(tail));
            }
        }
    } else {
        proof {
            assert(tail.len() == 0);
            assert(out@ =~= old(out)@ + sp_json_entries(tail));
        }
    }
}

/// Append the comma-separated decimal texts of the bytes from `i` on.
fn write_byte_items(bs: &Vec<u8>, i: usize, out: &mut Vec<u8>)
    requires
        i <= bs@.len(),
    ensures
        final(out)@ == old(out)@ + sp_json_byte_items(bs@.skip(i as int)),
    decreases bs@.len() - i,
{
    let ghost tail = bs@.skip(i as int);
    if i < bs.len() {
        proof {
            assert(tail[0] == bs@[i as int]);
            assert(tail.drop_first() =~= bs@.skip(i as int + 1));
        }
        push_int(out, bs[i] as i64);
        if i + 1 < bs.len() {
            out.push(44u8);
            write_byte_items(bs, i + 1, out);
            proof {
                assert(out@ =~= old(out)@ + sp_json_byte_items(tail));
            }
        } else {
            proof {
                assert(tail.len() == 1);
                assert(out@ =~= old(out)@ + sp_json_byte_items(tail));
            }
        }
    } else {
        proof {
            assert(tail.len() == 0);
            assert(out@ =~= old(out)@ + sp_json_byte_items(tail));
        }
    }
}

/// The compact JSON text of a value, as `json_of` describes it.
pub fn to_json(v: &Value) -> (r: Vec<u8>)
    ensures
        r@ == json_of(v@),
{
    let mut out: Vec<u8> = Vec::new();
    write_json(v, &mut out);
    proof {
        assert(Seq::<u8>::empty() + json_of(v@) =~= json_of(v@));
    }
    out
}


/// Escaping distributes over concatenation.
proof fn lemma_escape_concat(a: Seq<u8>, b: Seq<u8>)
    ensures
        sp_escape_bytes(a + b) == sp_escape_bytes(a) + sp_escape_bytes(b),
    decreases b.len(),
{
    if b.len() == 0 {
        assert(a + b =~= a);
        assert(sp_escape_bytes(a) + sp_escape_bytes(b) =~= sp_escape_bytes(a));
    } else {
        lemma_escape_concat(a, b.drop_last());
        assert((a + b).drop_last() =~= a + b.drop_last());
        assert((a + b).last() == b.last());
        assert(sp_escape_bytes(a + b) =~= sp_escape_bytes(a) + sp_escape_bytes(b));
    }
}

/// A sequence of bytes below `0x80` is valid UTF-8.
pub proof fn lemma_ascii_bytes_valid(bs: Seq<u8>)
    requires
        forall|i: int| 0 <= i < bs.len() ==> #[trigger] bs[i] < 0x80,
    ensures
        valid_utf8(bs),
    decreases bs.len(),
{
    if bs.len() > 0 {
        let b = bs[0];
        assert(is_leading_byte_width_1(b));
        assert(b & 0x7f == b) by (bit_vector)
            requires
                b < 0x80,
        ;
        assert(codepoint_width_1(b) == b as u32);
        assert(valid_first_scalar(bs));
        assert(length_of_first_scalar(bs) == 1);
        assert(pop_first_scalar(bs) =~= bs.drop_first());
        lemma_ascii_bytes_valid(bs.drop_first());
    }
}

/// Escaping leaves a sequence of unescaped bytes unchanged.
proof fn lemma_escape_passthrough(bs: Seq<u8>)
    requires
        forall|i: int| 0 <= i < bs.len() ==> #[trigger] bs[i] >= 32 && bs[i] != 34 && bs[i] != 92,
    ensures
        sp_escape_bytes(bs) == bs,
    decreases bs.len(),
{
    if bs.len() > 0 {
        lemma_escape_passthrough(bs.drop_last());
        assert(sp_escape_byte(bs.last()) =~= seq![bs.last()]);
        assert(sp_escape_bytes(bs) =~= bs);
    }
}

/// Escaping a valid UTF-8 sequence yields a valid UTF-8 sequence: only
/// single-byte scalars are rewritten, and only into bytes below `0x80`.
pub proof fn lemma_escape_valid(bs: Seq<u8>)
    requires
        valid_utf8(bs),
    ensures
        valid_utf8(sp_escape_bytes(bs)),
    decreases bs.len(),
{
    if bs.len() > 0 {
        let k = length_of_first_scalar(bs);
        let head = bs.subrange(0, k);
        let rest = pop_first_scalar(bs);
        assert(1 <= k <= bs.len());
        lemma_escape_valid(rest);
        assert(bs =~= head + rest);
        lemma_escape_concat(head, rest);
        assert(head.len() == k);
        assert(forall|j: int| 0 <= j < k ==> #[trigger] head[j] == bs[j]);
        if k == 1 {
            assert(head.last() == bs[0]);
            assert(head.drop_last() =~= Seq::<u8>::empty());
            assert(sp_escape_bytes(Seq::<u8>::empty()) == Seq::<u8>::empty());
            assert(sp_escape_bytes(head) =~= sp_escape_byte(bs[0]));
            assert(bs[0] < 0x80);
            assert(forall|i: int|
                0 <= i < sp_escape_byte(bs[0]).len() ==> #[trigger] sp_escape_byte(bs[0])[i]
                    < 0x80);
            lemma_ascii_bytes_valid(sp_escape_byte(bs[0]));
        } else {
            assert forall|i: int| 0 <= i < head.len() implies #[trigger] head[i] >= 32 && head[i]
                != 34 && head[i] != 92 by {
                assert(head[i] == bs[i]);
                if i == 0 {
                    assert(is_leading_byte_width_2(bs[0]) || is_leading_byte_width_3(bs[0])
                        || is_leading_byte_width_4(bs[0]));
                } else {
                    assert(is_continuation_byte(bs[i]));
                }
            }
            lemma_escape_passthrough(head);
            assert(head[0] == bs[0]);
            if k >= 2 {
                assert(head[1] == bs[1]);
            }
            if k >= 3 {
                assert(head[2] == bs[2]);
            }
            if k >= 4 {
                assert(head[3] == bs[3]);
            }
            assert(valid_first_scalar(head));
            assert(length_of_first_scalar(head) == k);
            assert(pop_first_scalar(head) =~= Seq::<u8>::empty());
            assert(valid_utf8(Seq::<u8>::empty()));
            assert(valid_utf8(head));
        }
        vstd::utf8::valid_utf8_concat(sp_escape_bytes(head), sp_escape_bytes(rest));
        assert(sp_escape_bytes(bs) == sp_escape_bytes(head) + sp_escape_bytes(rest));
    }
}

/// The quoted JSON text of a string is always valid UTF-8.
proof fn lemma_json_string_valid(s: Seq<char>)
    ensures
        valid_utf8(sp_json_string(s)),
{
    let q = seq![34u8];
    let e = sp_escape_bytes(encode_utf8(s));
    vstd::utf8::encode_utf8_valid_utf8(s);
    lemma_escape_valid(encode_utf8(s));
    lemma_ascii_bytes_valid(q);
    vstd::utf8::valid_utf8_concat(q, e);
    vstd::utf8::valid_utf8_concat(q + e, q);
}

/// The JSON text of a value is always valid UTF-8.
pub proof fn lemma_json_valid(v: ValueView)
    ensures
        valid_utf8(json_of(v)),
    decreases v, 2int,
{
    match v {
        ValueView::Null => {
            lemma_ascii_bytes_valid(seq![110u8, 117u8, 108u8, 108u8]);
        },
        ValueView::Bool(b) => {
            lemma_ascii_bytes_valid(seq![116u8, 114u8, 117u8, 101u8]);
            lemma_ascii_bytes_valid(seq![102u8, 97u8, 108u8, 115u8, 101u8]);
        },
        ValueView::Int(i) => {
            vstd::utf8::encode_utf8_valid_utf8(int_text(i as int));
        },
        ValueView::Float(t) => {
            vstd::utf8::encode_utf8_valid_utf8(t);
        },
        ValueView::String(s) => {
            lemma_json_string_valid(s);
        },
        ValueView::Array(vs) => {
            lemma_json_items_valid(vs);
            lemma_ascii_bytes_valid(seq![91u8]);
            lemma_ascii_bytes_valid(seq![93u8]);
            vstd::utf8::valid_utf8_concat(seq![91u8], sp_json_items(vs));
            vstd::utf8::valid_utf8_concat(seq![91u8] + sp_json_items(vs), seq![93u8]);
        },
        ValueView::Object(es) => {
            lemma_json_entries_valid(es);
            lemma_ascii_bytes_valid(seq![123u8]);
            lemma_ascii_bytes_valid(seq![125u8]);
            vstd::utf8::valid_utf8_concat(seq![123u8], sp_json_entries(es));
            vstd::utf8::valid_utf8_concat(seq![123u8] + sp_json_entries(es), seq![125u8]);
        },
        ValueView::Binary(bs) => {
            lemma_json_byte_items_valid(bs);
            lemma_ascii_bytes_valid(seq![91u8]);
            lemma_ascii_bytes_valid(seq![93u8]);
            vstd::utf8::valid_utf8_concat(seq![91u8], sp_json_byte_items(bs));
            vstd::utf8::valid_utf8_concat(seq![91u8] + sp_json_byte_items(bs), seq![93u8]);
        },
    }
}

/// The joined JSON texts of array elements are always valid UTF-8.
proof fn lemma_json_items_valid(vs: Seq<ValueView>)
    ensures
        valid_utf8(sp_json_items(vs)),
    decreases vs, 0int,
{
    if vs.len() == 0 {
        assert(valid_utf8(Seq::<u8>::empty()));
    } else if vs.len() == 1 {
        lemma_json_valid(vs[0]);
    } else {
        lemma_json_valid(vs[0]);
        lemma_ascii_bytes_valid(seq![44u8]);
        lemma_json_items_valid(vs.drop_first());
        vstd::utf8::valid_utf8_concat(json_of(vs[0]), seq![44u8]);
        vstd::utf8::valid_utf8_concat(json_of(vs[0]) + seq![44u8], sp_json_items(vs.drop_first()));
    }
}

/// The JSON text of one object entry is always valid UTF-8.
proof fn lemma_json_entry_valid(e: (Seq<char>, ValueView))
    ensures
        valid_utf8(sp_json_entry(e)),
    decreases e, 1int,
{
    lemma_json_string_valid(e.0);
    lemma_ascii_bytes_valid(seq![58u8]);
    lemma_json_valid(e.1);
    vstd::utf8::valid_utf8_concat(sp_json_string(e.0), seq![58u8]);
    vstd::utf8::valid_utf8_concat(sp_json_string(e.0) + seq![58u8], json_of(e.1));
}

/// The joined JSON texts of object entries are always valid UTF-8.
proof fn lemma_json_entries_valid(es: Seq<(Seq<char>, ValueView)>)
    ensures
        valid_utf8(sp_json_entries(es)),
    decreases es, 0int,
{
    if es.len() == 0 {
        assert(valid_utf8(Seq::<u8>::empty()));
    } else if es.len() == 1 {
        lemma_json_entry_valid(es[0]);
    } else {
        lemma_json_entry_valid(es[0]);
        lemma_ascii_bytes_valid(seq![44u8]);
        lemma_json_entries_valid(es.drop_first());
        vstd::utf8::valid_utf8_concat(sp_json_entry(es[0]), seq![44u8]);
        vstd::utf8::valid_utf8_concat(
            sp_json_entry(es[0]) + seq![44u8],
            sp_json_entries(es.drop_first()),
        );
    }
}

/// The joined decimal texts of binary bytes are always valid UTF-8.
proof fn lemma_json_byte_items_valid(bs: Seq<u8>)
    ensures
        valid_utf8(sp_json_byte_items(bs)),
    decreases bs.len(),
{
    if bs.len() == 0 {
        assert(valid_utf8(Seq::<u8>::empty()));
    } else if bs.len() == 1 {
        vstd::utf8::encode_utf8_valid_utf8(int_text(bs[0] as int));
    } else {
        vstd::utf8::encode_utf8_valid_utf8(int_text(bs[0] as int));
        lemma_ascii_bytes_valid(seq![44u8]);
        lemma_json_byte_items_valid(bs.drop_first());
        vstd::utf8::valid_utf8_concat(encode_utf8(int_text(bs[0] as int)), seq![44u8]);
        vstd::utf8::valid_utf8_concat(
            encode_utf8(int_text(bs[0] as int)) + seq![44u8],
            sp_json_byte_items(bs.drop_first()),
        );
    }
}

} // verus!
