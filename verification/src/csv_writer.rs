use crate::error::Error;
use crate::jsontext::json_of;
use crate::jsontext::to_json;
use crate::textnum::int_text;
use crate::textnum::int_to_string;
use crate::value::Value;
use crate::value::ValueView;
use vstd::prelude::*;
use vstd::string::StrSliceExecFns;
use vstd::utf8::encode_utf8;

verus! {

/// Options of the delimited-text writer.
pub struct Options {
    pub delimiter: u8,
}

/// The delimited-text rendering of one field value: numbers and floats
/// keep their decimal text, booleans and strings their plain text,
/// arrays and objects their JSON text, and null renders as nothing.
pub open spec fn sp_csv_value(v: ValueView) -> Seq<u8> {
    match v {
        ValueView::Int(i) => encode_utf8(int_text(i as int)),
        ValueView::Float(t) => encode_utf8(t),
        ValueView::Bool(b) => if b {
            encode_utf8("true"@)
        } else {
            encode_utf8("false"@)
        },
        ValueView::String(s) => encode_utf8(s),
        ValueView::Null => Seq::empty(),
        _ => json_of(v),
    }
}

/// Append the delimited-text rendering of one field value, as
/// `sp_csv_value` describes it. A binary blob has no rendering here.
pub fn write_value(value: &Value, buf: &mut Vec<u8>) -> (r: Result<(), Error>)
    requires
        !(value@ is Binary),
    ensures
        r is Ok,
        final(buf)@ == old(buf)@ + sp_csv_value(value@),
{
    match value {
        Value::Int(i) => {
            let s = int_to_string(*i);
            push_bytes(buf, s.as_str());
        },
        Value::Float(t) => {
            push_bytes(buf, t.as_str());
        },
        Value::Bool(b) => {
            if *b {
                push_bytes(buf, "true");
            } else {
                push_bytes(buf, "false");
            }
        },
        Value::String(s) => {
            push_bytes(buf, s.as_str());
        },
        Value::Null => {
            proof {
                assert(buf@ =~= old(buf)@ + sp_csv_value(value@));
            }
        },
        _ => {
            let bs = to_json(value);
            let mut i: usize = 0;
            proof {
                assert(buf@ =~= old(buf)@ + bs@.take(0));
            }
            while i < bs.len()
                invariant
                    i <= bs@.len(),
                    buf@ == old(buf)@ + bs@.take(i as int),
                decreases bs@.len() - i,
            {
                buf.push(bs[i]);
                proof {
                    assert(old(buf)@ + bs@.take(i as int + 1) =~= (old(buf)@ + bs@.take(
                        i as int,
                    )).push(bs@[i as int]));
                }
                i = i + 1;
            }
            proof {
                assert(bs@.take(bs@.len() as int) =~= bs@);
            }
        },
    }
    Ok(())
}

/// Append the bytes of a string slice.
fn push_bytes(out: &mut Vec<u8>, s: &str)
    ensures
        final(out)@ == old(out)@ + encode_utf8(s@),
{
    let bs = s.as_bytes_vec();
    let mut i: usize = 0;
    proof {
        assert(out@ =~= old(out)@ + bs@.take(0));
    }
    while i < bs.len()
        invariant
            i <= bs@.len(),
            out@ == old(out)@ + bs@.take(i as int),
        decreases bs@.len() - i,
    {
        out.push(bs[i]);
        proof {
            assert(old(out)@ + bs@.take(i as int + 1) =~= (old(out)@ + bs@.take(i as int)).push(
                bs@[i as int],
            ));
        }
        i = i + 1;
    }
    proof {
        assert(bs@.take(bs@.len() as int) =~= bs@);
    }
}

} // verus!
