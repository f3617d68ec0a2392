use crate::error::Error;
use crate::jsontext::json_of;
use crate::jsontext::sp_json_string;
use crate::jsontext::write_json;
use crate::textnum::int_text;
use crate::value::entries_view;
use crate::value::entry_view;
use crate::value::lemma_entries_view;
use crate::value::lemma_values_view;
use crate::value::values_view;
use crate::value::Value;
use vstd::utf8::encode_utf8;
use crate::reader::ValueReader;
use crate::value::ValueView;
use vstd::prelude::*;

verus! {

/// How the stream of records is laid out: one compact JSON array, a
/// pretty-printed array, or one record per line.
pub enum Mode {
    ArrayCompact,
    ArrayPretty,
    NdJson,
}

/// Options of the JSON writer.
pub struct Options {
    pub mode: Mode,
}

/// The newline-delimited rendering of a record sequence: each record's
/// compact JSON text, each followed by a newline.
pub open spec fn sp_ndjson(recs: Seq<ValueView>) -> Seq<u8>
    decreases recs.len(),
{
    if recs.len() == 0 {
        Seq::empty()
    } else {
        sp_ndjson(recs.drop_last()) + json_of(recs.last()) + seq![10u8]
    }
}

/// The compact-array rendering of a record sequence: the records'
/// compact JSON texts, comma separated, between brackets.
pub open spec fn sp_json_array(recs: Seq<ValueView>) -> Seq<u8>
    decreases recs.len(),
{
    if recs.len() == 0 {
        seq![91u8, 93u8]
    } else if recs.len() == 1 {
        seq![91u8] + json_of(recs[0]) + seq![93u8]
    } else {
        sp_json_array(recs.drop_last()).drop_last() + seq![44u8] + json_of(recs.last()) + seq![93u8]
    }
}

/// Stream a whole reader as newline-delimited JSON, as `sp_ndjson`
/// describes it.
pub fn write_ndjson<R: ValueReader>(out: &mut Vec<u8>, reader: &mut R) -> (r: Result<(), Error>)
    requires
        old(reader).wf(),
        old(reader).pos() == 0,
    ensures
        final(reader).wf(),
        match r {
            Ok(_) => old(reader).complete() && final(out)@ == old(out)@ + sp_ndjson(
                old(reader).records(),
            ),
            Err(_) => !old(reader).complete(),
        },
{
    let ghost recs = old(reader).records();
    loop
        invariant
            reader.wf(),
            recs == old(reader).records(),
            reader.records() == recs,
            reader.complete() == old(reader).complete(),
            0 <= reader.pos() <= recs.len(),
            out@ == old(out)@ + sp_ndjson(recs.take(reader.pos())),
        decreases recs.len() - reader.pos(),
    {
        let ghost p = reader.pos();
        match reader.next() {
            Ok(Some(v)) => {
                let ghost before = out@;
                write_json(&v, out);
                out.push(10);
                proof {
                    assert(recs.take(p + 1).drop_last() =~= recs.take(p));
                    assert(recs.take(p + 1).last() == recs[p]);
                    assert(out@ =~= old(out)@ + sp_ndjson(recs.take(p + 1)));
                }
            },
            Ok(None) => {
                proof {
                    assert(recs.take(recs.len() as int) =~= recs);
                }
                return Ok(());
            },
            Err(e) => {
                return Err(e);
            },
        }
    }
}

/// Stream a whole reader as one compact JSON array, as `sp_json_array`
/// describes it.
pub fn write_array_compact<R: ValueReader>(out: &mut Vec<u8>, reader: &mut R) -> (r: Result<
    (),
    Error,
>)
    requires
        old(reader).wf(),
        old(reader).pos() == 0,
    ensures
        final(reader).wf(),
        match r {
            Ok(_) => old(reader).complete() && final(out)@ == old(out)@ + sp_json_array(
                old(reader).records(),
            ),
            Err(_) => !old(reader).complete(),
        },
{
    let ghost recs = old(reader).records();
    out.push(91);
    let mut first = true;
    loop
        invariant
            reader.wf(),
            recs == old(reader).records(),
            reader.records() == recs,
            reader.complete() == old(reader).complete(),
            0 <= reader.pos() <= recs.len(),
            first <==> reader.pos() == 0,
            out@ == old(out)@ + sp_json_array(recs.take(reader.pos())).drop_last(),
        decreases recs.len() - reader.pos(),
    {
        let ghost p = reader.pos();
        match reader.next() {
            Ok(Some(v)) => {
                if !first {
                    out.push(44);
                }
                first = false;
                let ghost before = out@;
                write_json(&v, out);
                proof {
                    assert(recs.take(p + 1).drop_last() =~= recs.take(p));
                    assert(recs.take(p + 1).last() == recs[p]);
                    lemma_json_array_shape(recs.take(p + 1));
                    lemma_json_array_shape(recs.take(p));
                    if p == 0 {
                        assert(recs.take(0) =~= Seq::<ValueView>::empty());
                        assert(out@ =~= old(out)@ + sp_json_array(recs.take(p + 1)).drop_last());
                    } else {
                        assert(out@ =~= old(out)@ + sp_json_array(recs.take(p + 1)).drop_last());
                    }
                }
            },
            Ok(None) => {
                out.push(93);
                proof {
                    assert(recs.take(recs.len() as int) =~= recs);
                    lemma_json_array_shape(recs);
                    assert(out@ =~= old(out)@ + sp_json_array(recs));
                }
                return Ok(());
            },
            Err(e) => {
                return Err(e);
            },
        }
    }
}

/// A rendered array always ends with its closing bracket, and dropping
/// that bracket leaves the opening bracket and the joined records.
proof fn lemma_json_array_shape(recs: Seq<ValueView>)
    ensures
        sp_json_array(recs).len() >= 2,
        sp_json_array(recs).last() == 93u8,
        recs.len() == 0 ==> sp_json_array(recs).drop_last() =~= seq![91u8],
        recs.len() == 1 ==> sp_json_array(recs).drop_last() =~= seq![91u8] + json_of(recs[0]),
        recs.len() > 1 ==> sp_json_array(recs).drop_last() =~= sp_json_array(
            recs.drop_last(),
        ).drop_last() + seq![44u8] + json_of(recs.last()),
    decreases recs.len(),
{
    if recs.len() == 0 {
        assert(sp_json_array(recs) =~= seq![91u8, 93u8]);
        assert(sp_json_array(recs).drop_last() =~= seq![91u8]);
    } else if recs.len() == 1 {
        assert(sp_json_array(recs).drop_last() =~= seq![91u8] + json_of(recs[0]));
    } else {
        lemma_json_array_shape(recs.drop_last());
        assert(sp_json_array(recs).drop_last() =~= sp_json_array(recs.drop_last()).drop_last()
            + seq![44u8] + json_of(recs.last()));
    }
}


/// The pretty JSON text of a value under an indentation prefix: scalars
/// render as in compact JSON; a non-empty array or object opens on its
/// own line, lays every element on a deeper-indented line, and closes
/// on the prefix's own indentation.
pub open spec fn json_pretty_of(v: ValueView, ind: Seq<u8>) -> Seq<u8>
    decreases v, 2int,
{
    match v {
        ValueView::Array(vs) => if vs.len() == 0 {
            seq![91u8, 93u8]
        } else {
            seq![91u8, 10u8] + sp_pretty_items(vs, ind + seq![32u8, 32u8]) + seq![10u8] + ind
                + seq![93u8]
        },
        ValueView::Object(es) => if es.len() == 0 {
            seq![123u8, 125u8]
        } else {
            seq![123u8, 10u8] + sp_pretty_entries(es, ind + seq![32u8, 32u8]) + seq![10u8] + ind
                + seq![125u8]
        },
        ValueView::Binary(bs) => if bs.len() == 0 {
            seq![91u8, 93u8]
        } else {
            seq![91u8, 10u8] + sp_pretty_bytes(bs, ind + seq![32u8, 32u8]) + seq![10u8] + ind
                + seq![93u8]
        },
        _ => json_of(v),
    }
}

/// The pretty renderings of an array's elements, one per indented line.
pub open spec fn sp_pretty_items(vs: Seq<ValueView>, ind: Seq<u8>) -> Seq<u8>
    decreases vs, 0int,
{
    if vs.len() == 0 {
        Seq::empty()
    } else if vs.len() == 1 {
        ind + json_pretty_of(vs[0], ind)
    } else {
        ind + json_pretty_of(vs[0], ind) + seq![44u8, 10u8] + sp_pretty_items(vs.drop_first(), ind)
    }
}

/// The pretty rendering of one object entry on its indented line.
pub open spec fn sp_pretty_entry(e: (Seq<char>, ValueView), ind: Seq<u8>) -> Seq<u8>
    decreases e, 1int,
{
    ind + sp_json_string(e.0) + seq![58u8, 32u8] + json_pretty_of(e.1, ind)
}

/// The pretty renderings of an object's entries, one per indented line.
pub open spec fn sp_pretty_entries(es: Seq<(Seq<char>, ValueView)>, ind: Seq<u8>) -> Seq<u8>
    decreases es, 0int,
{
    if es.len() == 0 {
        Seq::empty()
    } else if es.len() == 1 {
        sp_pretty_entry(es[0], ind)
    } else {
        sp_pretty_entry(es[0], ind) + seq![44u8, 10u8] + sp_pretty_entries(es.drop_first(), ind)
    }
}

/// The pretty renderings of a binary blob's bytes, one per indented
/// line.
pub open spec fn sp_pretty_bytes(bs: Seq<u8>, ind: Seq<u8>) -> Seq<u8>
    decreases bs.len(),
{
    if bs.len() == 0 {
        Seq::empty()
    } else if bs.len() == 1 {
        ind + encode_utf8(int_text(bs[0] as int))
    } else {
        ind + encode_utf8(int_text(bs[0] as int)) + seq![44u8, 10u8] + sp_pretty_bytes(
            bs.drop_first(),
            ind,
        )
    }
}

/// Append the pretty JSON text of a value, as `json_pretty_of` describes
/// it.
pub fn write_json_pretty(v: &Value, out: &mut Vec<u8>, indent: &Vec<u8>)
    ensures
        final(out)@ == old(out)@ + json_pretty_of(v@, indent@),
    decreases *v, 2int, 0int,
{
    match v {
        Value::Array(vs) => {
            if vs.len() == 0 {
                out.push(91);
                out.push(93);
                proof {
                    lemma_values_view(vs@);
                    assert(out@ =~= old(out)@ + json_pretty_of(v@, indent@));
                }
            } else {
                out.push(91);
                out.push(10);
                let deeper = deepen(indent);
                write_pretty_items(vs, 0, out, &deeper);
                out.push(10);
                crate::jsontext::push_all(out, indent);
                out.push(93);
                proof {
                    lemma_values_view(vs@);
                    assert(values_view(vs@).skip(0) =~= values_view(vs@));
                    assert(out@ =~= old(out)@ + json_pretty_of(v@, indent@));
                }
            }
        },
        Value::Object(es) => {
            if es.len() == 0 {
                out.push(123);
                out.push(125);
                proof {
                    lemma_entries_view(es@);
                    assert(out@ =~= old(out)@ + json_pretty_of(v@, indent@));
                }
            } else {
                out.push(123);
                out.push(10);
                let deeper = deepen(indent);
                write_pretty_entries(es, 0, out, &deeper);
                out.push(10);
                crate::jsontext::push_all(out, indent);
                out.push(125);
                proof {
                    lemma_entries_view(es@);
                    assert(entries_view(es@).skip(0) =~= entries_view(es@));
                    assert(out@ =~= old(out)@ + json_pretty_of(v@, indent@));
                }
            }
        },
        Value::Binary(bs) => {
            if bs.len() == 0 {
                out.push(91);
                out.push(93);
                proof {
                    assert(out@ =~= old(out)@ + json_pretty_of(v@, indent@));
                }
            } else {
                out.push(91);
                out.push(10);
                let deeper = deepen(indent);
                write_pretty_bytes(bs, 0, out, &deeper);
                out.push(10);
                crate::jsontext::push_all(out, indent);
                out.push(93);
                proof {
                    assert(bs@.skip(0) =~= bs@);
                    assert(out@ =~= old(out)@ + json_pretty_of(v@, indent@));
                }
            }
        },
        _ => {
            write_json(v, out);
            proof {
                assert(out@ =~= old(out)@ + json_pretty_of(v@, indent@));
            }
        },
    }
}

/// The indentation one level deeper: two more spaces.
fn deepen(indent: &Vec<u8>) -> (r: Vec<u8>)
    ensures
        r@ == indent@ + seq![32u8, 32u8],
{
    let mut r: Vec<u8> = Vec::new();
    crate::jsontext::push_all(&mut r, indent);
    r.push(32);
    r.push(32);
    proof {
        assert(r@ =~= indent@ + seq![32u8, 32u8]);
    }
    r
}

/// Append the pretty renderings of the elements from `i` on.
fn write_pretty_items(vs: &Vec<Value>, i: usize, out: &mut Vec<u8>, indent: &Vec<u8>)
    requires
        i <= vs@.len(),
    ensures
        final(out)@ == old(out)@ + sp_pretty_items(values_view(vs@).skip(i as int), indent@),
    decreases *vs, 0int, vs@.len() - i,
{
    proof {
        lemma_values_view(vs@);
    }
    let ghost tail = values_view(vs@).skip(i as int);
    if i < vs.len() {
        proof {
            assert(tail[0] == values_view(vs@)[i as int]);
            assert(tail[0] == vs@[i as int]@);
            assert(tail.drop_first() =~= values_view(vs@).skip(i as int + 1));
        }
        crate::jsontext::push_all(out, indent);
        let item = &vs[i];
        write_json_pretty(item, out, indent);
        if i + 1 < vs.len() {
            out.push(44);
            out.push(10);
            write_pretty_items(vs, i + 1, out, indent);
            proof {
                assert(out@ =~= old(out)@ + sp_pretty_items(tail, indent@));
            }
        } else {
            proof {
                assert(tail.len() == 1);
                assert(out@ =~= old(out)@ + sp_pretty_items(tail, indent@));
            }
        }
    } else {
        proof {
            assert(tail.len() == 0);
            assert(out@ =~= old(out)@ + sp_pretty_items(tail, indent@));
        }
    }
}

/// Append the pretty rendering of one object entry.
fn write_pretty_entry(e: &(String, Value), out: &mut Vec<u8>, indent: &Vec<u8>)
    ensures
        final(out)@ == old(out)@ + sp_pretty_entry(entry_view(*e), indent@),
    decreases *e, 1int, 0int,
{
    crate::jsontext::push_all(out, indent);
    crate::jsontext::push_json_string(out, e.0.as_str());
    out.push(58);
    out.push(32);
    write_json_pretty(&e.1, out, indent);
    proof {
        assert(out@ =~= old(out)@ + sp_pretty_entry(entry_view(*e), indent@));
    }
}

/// Append the pretty renderings of the entries from `i` on.
fn write_pretty_entries(es: &Vec<(String, Value)>, i: usize, out: &mut Vec<u8>, indent: &Vec<u8>)
    requires
        i <= es@.len(),
    ensures
        final(out)@ == old(out)@ + sp_pretty_entries(entries_view(es@).skip(i as int), indent@),
    decreases *es, 0int, es@.len() - i,
{
    proof {
        lemma_entries_view(es@);
    }
    let ghost tail = entries_view(es@).skip(i as int);
    if i < es.len() {
        proof {
            assert(tail[0] == entries_view(es@)[i as int]);
            assert(tail[0] == entry_view(es@[i as int]));
            assert(tail.drop_first() =~= entries_view(es@).skip(i as int + 1));
        }
        let e = &es[i];
        write_pretty_entry(e, out, indent);
        if i + 1 < es.len() {
            out.push(44);
            out.push(10);
            write_pretty_entries(es, i + 1, out, indent);
            proof {
                assert(out@ =~= old(out)@ + sp_pretty_entries(tail, indent@));
            }
        } else {
            proof {
                assert(tail.len() == 1);
                assert(out@ =~= old(out)@ + sp_pretty_entries(tail, indent@));
            }
        }
    } else {
        proof {
            assert(tail.len() == 0);
            assert(out@ =~= old(out)@ + sp_pretty_entries(tail, indent@));
        }
    }
}

/// Append the pretty renderings of the bytes from `i` on.
fn write_pretty_bytes(bs: &Vec<u8>, i: usize, out: &mut Vec<u8>, indent: &Vec<u8>)
    requires
        i <= bs@.len(),
    ensures
        final(out)@ == old(out)@ + sp_pretty_bytes(bs@.skip(i as int), indent@),
    decreases bs@.len() - i,
{
    let ghost tail = bs@.skip(i as int);
    if i < bs.len() {
        proof {
            assert(tail[0] == bs@[i as int]);
            assert(tail.drop_first() =~= bs@.skip(i as int + 1));
        }
        crate::jsontext::push_all(out, indent);
        crate::jsontext::push_int(out, bs[i] as i64);
        if i + 1 < bs.len() {
            out.push(44);
            out.push(10);
            write_pretty_bytes(bs, i + 1, out, indent);
            proof {
                assert(out@ =~= old(out)@ + sp_pretty_bytes(tail, indent@));
            }
        } else {
            proof {
                assert(tail.len() == 1);
                assert(out@ =~= old(out)@ + sp_pretty_bytes(tail, indent@));
            }
        }
    } else {
        proof {
            assert(tail.len() == 0);
            assert(out@ =~= old(out)@ + sp_pretty_bytes(tail, indent@));
        }
    }
}

/// The pretty-array rendering of a record sequence: the records'
/// pretty JSON texts, comma-and-newline separated, between brackets on
/// their own lines.
pub open spec fn sp_json_array_pretty(recs: Seq<ValueView>) -> Seq<u8>
    decreases recs.len(),
{
    if recs.len() == 0 {
        seq![91u8, 10u8, 10u8, 93u8, 10u8]
    } else if recs.len() == 1 {
        seq![91u8, 10u8] + json_pretty_of(recs[0], Seq::empty()) + seq![10u8, 93u8, 10u8]
    } else {
        sp_json_array_pretty(recs.drop_last()).take(
            sp_json_array_pretty(recs.drop_last()).len() - 3,
        ) + seq![44u8, 10u8] + json_pretty_of(recs.last(), Seq::empty()) + seq![10u8, 93u8, 10u8]
    }
}

/// Stream a whole reader as one pretty-printed JSON array, as
/// `sp_json_array_pretty` describes it.
pub fn write_array_pretty<R: ValueReader>(out: &mut Vec<u8>, reader: &mut R) -> (r: Result<
    (),
    Error,
>)
    requires
        old(reader).wf(),
        old(reader).pos() == 0,
    ensures
        final(reader).wf(),
        match r {
            Ok(_) => old(reader).complete() && final(out)@ == old(out)@ + sp_json_array_pretty(
                old(reader).records(),
            ),
            Err(_) => !old(reader).complete(),
        },
{
    let ghost recs = old(reader).records();
    out.push(91);
    out.push(10);
    let mut first = true;
    let empty_indent: Vec<u8> = Vec::new();
    loop
        invariant
            reader.wf(),
            recs == old(reader).records(),
            reader.records() == recs,
            reader.complete() == old(reader).complete(),
            0 <= reader.pos() <= recs.len(),
            first <==> reader.pos() == 0,
            empty_indent@ == Seq::<u8>::empty(),
            out@ == old(out)@ + sp_json_array_pretty(recs.take(reader.pos())).take(
                sp_json_array_pretty(recs.take(reader.pos())).len() - 3,
            ),
        decreases recs.len() - reader.pos(),
    {
        let ghost p = reader.pos();
        match reader.next() {
            Ok(Some(v)) => {
                if !first {
                    out.push(44);
                    out.push(10);
                }
                first = false;
                write_json_pretty(&v, out, &empty_indent);
                proof {
                    assert(recs.take(p + 1).drop_last() =~= recs.take(p));
                    assert(recs.take(p + 1).last() == recs[p]);
                    lemma_pretty_array_shape(recs.take(p + 1));
                    lemma_pretty_array_shape(recs.take(p));
                    if p == 0 {
                        assert(recs.take(0) =~= Seq::<ValueView>::empty());
                        assert(out@ =~= old(out)@ + sp_json_array_pretty(recs.take(p + 1)).take(
                            sp_json_array_pretty(recs.take(p + 1)).len() - 3,
                        ));
                    } else {
                        assert(out@ =~= old(out)@ + sp_json_array_pretty(recs.take(p + 1)).take(
                            sp_json_array_pretty(recs.take(p + 1)).len() - 3,
                        ));
                    }
                }
            },
            Ok(None) => {
                out.push(10);
                out.push(93);
                out.push(10);
                proof {
                    assert(recs.take(recs.len() as int) =~= recs);
                    lemma_pretty_array_shape(recs);
                    assert(out@ =~= old(out)@ + sp_json_array_pretty(recs));
                }
                return Ok(());
            },
            Err(e) => {
                return Err(e);
            },
        }
    }
}

/// A pretty-rendered array always ends with a newline, the closing
/// bracket and a newline, and dropping those three leaves the opening
/// line and the joined records.
proof fn lemma_pretty_array_shape(recs: Seq<ValueView>)
    ensures
        sp_json_array_pretty(recs).len() >= 5,
        recs.len() == 0 ==> sp_json_array_pretty(recs).take(
            sp_json_array_pretty(recs).len() - 3,
        ) =~= seq![91u8, 10u8],
        recs.len() == 1 ==> sp_json_array_pretty(recs).take(
            sp_json_array_pretty(recs).len() - 3,
        ) =~= seq![91u8, 10u8] + json_pretty_of(recs[0], Seq::empty()),
        recs.len() > 1 ==> sp_json_array_pretty(recs).take(
            sp_json_array_pretty(recs).len() - 3,
        ) =~= sp_json_array_pretty(recs.drop_last()).take(
            sp_json_array_pretty(recs.drop_last()).len() - 3,
        ) + seq![44u8, 10u8] + json_pretty_of(recs.last(), Seq::empty()),
    decreases recs.len(),
{
    if recs.len() == 0 {
        assert(sp_json_array_pretty(recs) =~= seq![91u8, 10u8, 10u8, 93u8, 10u8]);
        assert(sp_json_array_pretty(recs).take(2) =~= seq![91u8, 10u8]);
    } else if recs.len() == 1 {
        assert(sp_json_array_pretty(recs).take(sp_json_array_pretty(recs).len() - 3) =~= seq![
            91u8,
            10u8,
        ] + json_pretty_of(recs[0], Seq::empty()));
    } else {
        lemma_pretty_array_shape(recs.drop_last());
        assert(sp_json_array_pretty(recs).take(sp_json_array_pretty(recs).len() - 3)
            =~= sp_json_array_pretty(recs.drop_last()).take(
            sp_json_array_pretty(recs.drop_last()).len() - 3,
        ) + seq![44u8, 10u8] + json_pretty_of(recs.last(), Seq::empty()));
    }
}

} // verus!
