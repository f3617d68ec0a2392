use crate::error::Error;
use crate::jsontext::json_of;
use crate::jsontext::to_json;
use crate::textnum::int_text;
use crate::textnum::int_to_string;
use crate::value::Value;
use crate::value::ValueView;
use vstd::prelude::*;
use vstd::string::StrSliceExecFns;
use vstd::utf8::encode_utf8;

verus! {

/// The markup escape of one byte of UTF-8 text: ampersands and angle
/// brackets become entities, every other byte passes through.
pub open spec fn sp_html_escape_byte(b: u8) -> Seq<u8> {
    if b == 38 {
        encode_utf8("&amp;"@)
    } else if b == 60 {
        encode_utf8("&lt;"@)
    } else if b == 62 {
        encode_utf8("&gt;"@)
    } else {
        seq![b]
    }
}

/// The markup escape of a byte sequence, byte by byte.
pub open spec fn sp_html_escape(bs: Seq<u8>) -> Seq<u8>
    decreases bs.len(),
{
    if bs.len() == 0 {
        Seq::empty()
    } else {
        sp_html_escape(bs.drop_last()) + sp_html_escape_byte(bs.last())
    }
}

/// The markup rendering of one cell value: text is escaped, numbers and
/// floats keep their decimal text, arrays and objects render as their
/// escaped JSON text, and null renders as `NULL`.
pub open spec fn sp_html_value(v: ValueView) -> Seq<u8> {
    match v {
        ValueView::Int(i) => encode_utf8(int_text(i as int)),
        ValueView::Float(t) => encode_utf8(t),
        ValueView::Bool(b) => if b {
            encode_utf8("true"@)
        } else {
            encode_utf8("false"@)
        },
        ValueView::String(s) => sp_html_escape(encode_utf8(s)),
        ValueView::Null => encode_utf8("NULL"@),
        _ => sp_html_escape(json_of(v)),
    }
}

/// Append the markup escape of a byte vector.
fn push_html_escaped(out: &mut Vec<u8>, bs: &Vec<u8>)
    ensures
        final(out)@ == old(out)@ + sp_html_escape(bs@),
{
    proof {
        reveal_strlit("&amp;");
        reveal_strlit("&lt;");
        reveal_strlit("&gt;");
    }
    let mut i: usize = 0;
    proof {
        assert(sp_html_escape(bs@.take(0)) =~= Seq::<u8>::empty());
        assert(out@ =~= old(out)@ + sp_html_escape(bs@.take(0)));
    }
    while i < bs.len()
        invariant
            i <= bs@.len(),
            out@ == old(out)@ + sp_html_escape(bs@.take(i as int)),
        decreases bs@.len() - i,
    {
        let b = bs[i];
        let ghost before = out@;
        proof {
            assert(bs@.take(i as int + 1).drop_last() =~= bs@.take(i as int));
            assert(bs@.take(i as int + 1).last() == bs@[i as int]);
        }
        if b == 38 {
            push_bytes(out, "&amp;");
        } else if b == 60 {
            push_bytes(out, "&lt;");
        } else if b == 62 {
            push_bytes(out, "&gt;");
        } else {
            out.push(b);
        }
        proof {
            assert(out@ =~= before + sp_html_escape_byte(b));
            assert(out@ =~= old(out)@ + sp_html_escape(bs@.take(i as int + 1)));
        }
        i = i + 1;
    }
    proof {
        assert(bs@.take(bs@.len() as int) =~= bs@);
    }
}

/// Append the bytes of a string slice.
fn push_bytes(out: &mut Vec<u8>, s: &str)
    ensures
        final(out)@ == old(out)@ + encode_utf8(s@),
{
    let bs = s.as_bytes_vec();
    let mut i: usize = 0;
    proof {
        assert(out@ =~= old(out)@ + bs@.take(0));
    }
    while i < bs.len()
        invariant
            i <= bs@.len(),
            out@ == old(out)@ + bs@.take(i as int),
        decreases bs@.len() - i,
    {
        out.push(bs[i]);
        proof {
            assert(old(out)@ + bs@.take(i as int + 1) =~= (old(out)@ + bs@.take(i as int)).push(
                bs@[i as int],
            ));
        }
        i = i + 1;
    }
    proof {
        assert(bs@.take(bs@.len() as int) =~= bs@);
    }
}

/// Append the markup rendering of one cell value, as `sp_html_value`
/// describes it. A binary blob has no rendering here.
pub fn write_value(out: &mut Vec<u8>, value: &Value) -> (r: Result<(), Error>)
    requires
        !(value@ is Binary),
    ensures
        r is Ok,
        final(out)@ == old(out)@ + sp_html_value(value@),
{
    match value {
        Value::Int(i) => {
            let s = int_to_string(*i);
            push_bytes(out, s.as_str());
        },
        Value::Float(t) => {
            push_bytes(out, t.as_str());
        },
        Value::Bool(b) => {
            if *b {
                push_bytes(out, "true");
            } else {
                push_bytes(out, "false");
            }
        },
        Value::String(s) => {
            let bs = s.as_str().as_bytes_vec();
            push_html_escaped(out, &bs);
        },
        Value::Null => {
            push_bytes(out, "NULL");
        },
        _ => {
            let bs = to_json(value);
            push_html_escaped(out, &bs);
        },
    }
    Ok(())
}

} // verus!
