use vstd::prelude::*;
use vstd::string::StrSliceExecFns;
use vstd::string::StringExecFns;
use crate::records::decode_records;
use crate::records::decode_spec;
use crate::records::encode_records;
use crate::records::list_wire;
use crate::records::views;
use crate::records::RecordView;
use crate::records::StatusRecord;
use crate::strutil::str_eq;
use crate::strutil::string_from_chars;

verus! {

/// The insertion index a requested position stands for: counted from the
/// left, or from the end with 0 meaning the tail.  A position beyond the
/// list clamps to the nearest end instead of failing, so a too-large
/// position can never crash the splice.
pub open spec fn splice_index(len: int, position: int, from_end: bool) -> int {
    if from_end {
        if position <= len {
            len - position
        } else {
            0
        }
    } else {
        if position <= len {
            position
        } else {
            len
        }
    }
}

/// Law: position 0 from the left inserts at the head, position 0 from the
/// end inserts at the tail, and any position yields an index within the
/// list, however large it is.
pub proof fn lemma_splice_index_edges(len: int, position: int)
    requires
        0 <= len,
        0 <= position,
    ensures
        splice_index(len, 0, false) == 0,
        splice_index(len, 0, true) == len,
        0 <= splice_index(len, position, false) <= len,
        0 <= splice_index(len, position, true) <= len,
{
}

/// The record injected into the stream: plain markup, no instance and no
/// color, with the rendered text as its body.
pub open spec fn injected_record(name: Seq<char>, text: Seq<char>) -> RecordView {
    RecordView { name, instance: None, markup: "none"@, color: None, full_text: text }
}

/// What [`update`] emits for one input line: a leading separator comma is
/// remembered and re-emitted; a payload that decodes as a record array gets
/// the injected record spliced in at the clamped index and is re-serialized
/// to the exact wire shape; any other line passes through unchanged.
pub open spec fn update_spec(
    line: Seq<char>,
    name: Seq<char>,
    position: int,
    from_end: bool,
    text: Seq<char>,
) -> Seq<char> {
    let comma = line.len() > 0 && line[0] == ',';
    let payload = if comma {
        line.skip(1)
    } else {
        line
    };
    match decode_spec(payload) {
        Some(rs) => {
            let out = list_wire(
                rs.insert(splice_index(rs.len() as int, position, from_end), injected_record(name, text)),
            );
            if comma {
                seq![','] + out
            } else {
                out
            }
        },
        None => line,
    }
}

/// True of the two fixed header lines that open the protocol stream; they
/// are read and re-emitted verbatim, never spliced.
pub fn is_header(line: &str) -> (r: bool)
    ensures
        r == (line@ == "{\"version\":1}"@ || line@ == "["@),
{
    str_eq(line, "{\"version\":1}") || str_eq(line, "[")
}

/// Splice the named record into one protocol line, or pass the line
/// through unchanged when it is not a record array.
pub fn update(line: &str, name: &str, position: usize, reverse: bool, what: &str) -> (r: String)
    ensures
        r@ == update_spec(line@, name@, position as int, reverse, what@),
{
    let n = line.unicode_len();
    let comma = n > 0 && line.get_char(0) == ',';
    let payload: &str = if comma {
        line.substring_char(1, n)
    } else {
        line
    };
    proof {
        if comma {
            assert(line@.skip(1) =~= line@.subrange(1, n as int));
        }
    }
    match decode_records(payload) {
        Some(items) => {
            let ghost pre = items@;
            let len = items.len();
            let idx = if reverse {
                if position <= len {
                    len - position
                } else {
                    0
                }
            } else {
                if position <= len {
                    position
                } else {
                    len
                }
            };
            let rec = StatusRecord {
                name: String::from_str(name),
                instance: None,
                markup: String::from_str("none"),
                color: None,
                full_text: String::from_str(what),
            };
            proof {
                assert(rec@ =~= injected_record(name@, what@));
            }
            let ghost rv = rec@;
            let ghost rec_snap = rec;
            let mut items2 = items;
            items2.insert(idx, rec);
            proof {
                assert(items2@ == pre.insert(idx as int, rec_snap));
                assert forall|x: int| 0 <= x < items2@.len() implies views(items2@)[x] == views(
                    pre,
                ).insert(idx as int, rv)[x] by {
                    if x < idx as int {
                        assert(items2@[x] == pre[x]);
                    } else if x > idx as int {
                        assert(items2@[x] == pre[x - 1]);
                    }
                }
                assert(views(items2@) =~= views(pre).insert(idx as int, rv));
                assert(idx as int == splice_index(pre.len() as int, position as int, reverse));
            }
            let mut out: Vec<char> = Vec::new();
            if comma {
                out.push(',');
            }
            let mut encoded = encode_records(&items2);
            out.append(&mut encoded);
            proof {
                assert(out@ =~= update_spec(line@, name@, position as int, reverse, what@));
            }
            string_from_chars(&out)
        },
        None => String::from_str(line),
    }
}

} // verus!
