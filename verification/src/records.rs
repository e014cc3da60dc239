use vstd::prelude::*;
use vstd::arithmetic::div_mod::lemma_fundamental_div_mod;
use vstd::string::StrSliceExecFns;
use crate::numfmt::digit_char;
use crate::numfmt::digit;
use crate::strutil::chars_eq_str;
use crate::strutil::is_prefix;
use crate::strutil::matches_at;
use crate::strutil::string_from_chars;

verus! {

/// One element of the status-bar protocol array.  `instance` and `color`
/// are optional and are omitted from the wire entirely when absent.
#[derive(Clone, PartialEq, Eq, Debug)]
pub struct StatusRecord {
    pub name: String,
    pub instance: Option<String>,
    pub markup: String,
    pub color: Option<String>,
    pub full_text: String,
}

/// Ghost image of a status record.
#[verifier::ext_equal]
pub ghost struct RecordView {
    pub name: Seq<char>,
    pub instance: Option<Seq<char>>,
    pub markup: Seq<char>,
    pub color: Option<Seq<char>>,
    pub full_text: Seq<char>,
}

impl View for StatusRecord {
    type V = RecordView;

    open spec fn view(&self) -> RecordView {
        RecordView {
            name: self.name@,
            instance: match self.instance {
                Some(s) => Some(s@),
                None => None,
            },
            markup: self.markup@,
            color: match self.color {
                Some(s) => Some(s@),
                None => None,
            },
            full_text: self.full_text@,
        }
    }
}

/// The record sequence a record vector stands for.
pub open spec fn views(rs: Seq<StatusRecord>) -> Seq<RecordView> {
    Seq::new(rs.len(), |i: int| rs[i]@)
}

/// The hexadecimal digit character for `d` (lower case).
pub open spec fn hex_digit(d: int) -> char {
    if d < 10 {
        digit_char(d)
    } else if d == 10 {
        'a'
    } else if d == 11 {
        'b'
    } else if d == 12 {
        'c'
    } else if d == 13 {
        'd'
    } else if d == 14 {
        'e'
    } else {
        'f'
    }
}

/// JSON escape of one character: quote and backslash get a backslash,
/// control characters become `\u00XX`, everything else stands for itself.
pub open spec fn esc_char(c: char) -> Seq<char> {
    if c == '"' {
        seq!['\\', '"']
    } else if c == '\\' {
        seq!['\\', '\\']
    } else if (c as u32) < 32 {
        seq!['\\', 'u', '0', '0', hex_digit(c as u32 as int / 16), hex_digit(c as u32 as int % 16)]
    } else {
        seq![c]
    }
}

/// JSON escape of a whole string body.
pub open spec fn escape(s: Seq<char>) -> Seq<char>
    decreases s.len(),
{
    if s.len() == 0 {
        Seq::empty()
    } else {
        esc_char(s[0]) + escape(s.skip(1))
    }
}

/// A JSON string on the wire: quoted, escaped body.
pub open spec fn quoted(s: Seq<char>) -> Seq<char> {
    seq!['"'] + escape(s) + seq!['"']
}

/// One object member on the wire: quoted key, colon, quoted string value.
pub open spec fn member_wire(k: Seq<char>, v: Seq<char>) -> Seq<char> {
    quoted(k) + seq![':'] + quoted(v)
}

/// The members a record serializes to, in fixed key order, optional members
/// dropped when absent.
pub open spec fn members_of(r: RecordView) -> Seq<(Seq<char>, Seq<char>)> {
    seq![("name"@, r.name)] + (match r.instance {
        Some(s) => seq![("instance"@, s)],
        None => Seq::empty(),
    }) + seq![("markup"@, r.markup)] + (match r.color {
        Some(s) => seq![("color"@, s)],
        None => Seq::empty(),
    }) + seq![("full_text"@, r.full_text)]
}

/// Comma-separated members followed by the closing brace.
pub open spec fn members_wire(ms: Seq<(Seq<char>, Seq<char>)>) -> Seq<char>
    decreases ms.len(),
{
    if ms.len() == 0 {
        Seq::empty()
    } else if ms.len() == 1 {
        member_wire(ms[0].0, ms[0].1) + seq!['}']
    } else {
        member_wire(ms[0].0, ms[0].1) + seq![','] + members_wire(ms.skip(1))
    }
}

/// One record on the wire.
pub open spec fn record_wire(r: RecordView) -> Seq<char> {
    seq!['{'] + members_wire(members_of(r))
}

/// Comma-separated records followed by the closing bracket.
pub open spec fn records_wire(rs: Seq<RecordView>) -> Seq<char>
    decreases rs.len(),
{
    if rs.len() == 0 {
        Seq::empty()
    } else if rs.len() == 1 {
        record_wire(rs[0]) + seq![']']
    } else {
        record_wire(rs[0]) + seq![','] + records_wire(rs.skip(1))
    }
}

/// A record list on the wire: the exact shape this crate emits.
pub open spec fn list_wire(rs: Seq<RecordView>) -> Seq<char> {
    if rs.len() == 0 {
        seq!['[', ']']
    } else {
        seq!['['] + records_wire(rs)
    }
}

/// Value of a hexadecimal digit character, if it is one.
pub open spec fn hex_val(c: char) -> Option<int> {
    if '0' <= c && c <= '9' {
        Some(c as u32 as int - 48)
    } else if 'a' <= c && c <= 'f' {
        Some(c as u32 as int - 87)
    } else if 'A' <= c && c <= 'F' {
        Some(c as u32 as int - 55)
    } else {
        None
    }
}

/// The character a simple escape stands for, if recognized.
pub open spec fn simple_unesc(e: char) -> Option<char> {
    if e == '"' {
        Some('"')
    } else if e == '\\' {
        Some('\\')
    } else if e == '/' {
        Some('/')
    } else if e == 'n' {
        Some('\n')
    } else if e == 't' {
        Some('\t')
    } else if e == 'r' {
        Some('\r')
    } else if e == 'b' {
        Some((8u8) as char)
    } else if e == 'f' {
        Some((12u8) as char)
    } else {
        None
    }
}

/// Parse a JSON string body starting at `i` (just after the opening quote):
/// the decoded content and the position after the closing quote.  Unicode
/// escapes are accepted in the `\u00XX` range this crate emits.
pub open spec fn parse_string_at(t: Seq<char>, i: int) -> Option<(Seq<char>, int)>
    decreases t.len() - i,
{
    if i < 0 || i >= t.len() {
        None
    } else if t[i] == '"' {
        Some((Seq::empty(), i + 1))
    } else if t[i] == '\\' {
        if i + 2 > t.len() {
            None
        } else if t[i + 1] == 'u' {
            if i + 6 > t.len() {
                None
            } else if t[i + 2] == '0' && t[i + 3] == '0' && hex_val(t[i + 4]) is Some && hex_val(
                t[i + 5],
            ) is Some {
                let code = hex_val(t[i + 4])->Some_0 * 16 + hex_val(t[i + 5])->Some_0;
                match parse_string_at(t, i + 6) {
                    Some((s, j)) => Some((seq![(code as u8) as char] + s, j)),
                    None => None,
                }
            } else {
                None
            }
        } else {
            match simple_unesc(t[i + 1]) {
                Some(c) => match parse_string_at(t, i + 2) {
                    Some((s, j)) => Some((seq![c] + s, j)),
                    None => None,
                },
                None => None,
            }
        }
    } else {
        match parse_string_at(t, i + 1) {
            Some((s, j)) => Some((seq![t[i]] + s, j)),
            None => None,
        }
    }
}

/// A parsed string ends after where it started and inside the input.
pub proof fn lemma_parse_string_bounds(t: Seq<char>, i: int)
    ensures
        parse_string_at(t, i) matches Some(r) ==> i < r.1 <= t.len(),
    decreases t.len() - i,
{
    if 0 <= i < t.len() {
        if t[i] == '"' {
        } else if t[i] == '\\' {
            if t[i + 1] == 'u' {
                if i + 6 <= t.len() {
                    lemma_parse_string_bounds(t, i + 6);
                }
            } else {
                if i + 2 <= t.len() {
                    lemma_parse_string_bounds(t, i + 2);
                }
            }
        } else {
            lemma_parse_string_bounds(t, i + 1);
        }
    }
}

/// Partially decoded record: which fields have been seen so far.
pub ghost struct RecordAcc {
    pub name: Option<Seq<char>>,
    pub instance: Option<Seq<char>>,
    pub markup: Option<Seq<char>>,
    pub color: Option<Seq<char>>,
    pub full_text: Option<Seq<char>>,
}

/// The accumulator with no field seen.
pub open spec fn acc_empty() -> RecordAcc {
    RecordAcc { name: None, instance: None, markup: None, color: None, full_text: None }
}

/// Store member `k = v`; unknown keys and duplicates fail the decode.
pub open spec fn acc_put(acc: RecordAcc, k: Seq<char>, v: Seq<char>) -> Option<RecordAcc> {
    if k == "name"@ {
        if acc.name is None {
            Some(RecordAcc { name: Some(v), ..acc })
        } else {
            None
        }
    } else if k == "instance"@ {
        if acc.instance is None {
            Some(RecordAcc { instance: Some(v), ..acc })
        } else {
            None
        }
    } else if k == "markup"@ {
        if acc.markup is None {
            Some(RecordAcc { markup: Some(v), ..acc })
        } else {
            None
        }
    } else if k == "color"@ {
        if acc.color is None {
            Some(RecordAcc { color: Some(v), ..acc })
        } else {
            None
        }
    } else if k == "full_text"@ {
        if acc.full_text is None {
            Some(RecordAcc { full_text: Some(v), ..acc })
        } else {
            None
        }
    } else {
        None
    }
}

/// The record an accumulator amounts to; `name`, `markup` and `full_text`
/// are required, the other two optional.
pub open spec fn acc_done(acc: RecordAcc) -> Option<RecordView> {
    match (acc.name, acc.markup, acc.full_text) {
        (Some(n), Some(m), Some(f)) => Some(
            RecordView {
                name: n,
                instance: acc.instance,
                markup: m,
                color: acc.color,
                full_text: f,
            },
        ),
        _ => None,
    }
}


/// JSON whitespace.
pub open spec fn is_ws(c: char) -> bool {
    c == ' ' || c == '\t' || c == '\n' || c == '\r'
}

/// First position at or after `i` that holds no whitespace.
pub open spec fn skip_ws(t: Seq<char>, i: int) -> int
    decreases t.len() - i,
{
    if 0 <= i < t.len() && is_ws(t[i]) {
        skip_ws(t, i + 1)
    } else {
        i
    }
}

/// Skipping whitespace stays inside the input.
pub proof fn lemma_skip_ws_bounds(t: Seq<char>, i: int)
    requires
        0 <= i <= t.len(),
    ensures
        i <= skip_ws(t, i) <= t.len(),
    decreases t.len() - i,
{
    if i < t.len() && is_ws(t[i]) {
        lemma_skip_ws_bounds(t, i + 1);
    }
}

/// A key this decoder stores; every other member is skipped over.
pub open spec fn is_known_key(k: Seq<char>) -> bool {
    k == "name"@ || k == "instance"@ || k == "markup"@ || k == "color"@ || k == "full_text"@
}

/// A character that may occur in a JSON number.
pub open spec fn is_num_char(c: char) -> bool {
    ('0' <= c && c <= '9') || c == '-' || c == '+' || c == '.' || c == 'e' || c == 'E'
}

/// First position at or after `i` past a run of number characters.
pub open spec fn skip_num(t: Seq<char>, i: int) -> int
    decreases t.len() - i,
{
    if 0 <= i < t.len() && is_num_char(t[i]) {
        skip_num(t, i + 1)
    } else {
        i
    }
}

/// Skipping a number run stays inside the input.
pub proof fn lemma_skip_num_bounds(t: Seq<char>, i: int)
    requires
        0 <= i <= t.len(),
    ensures
        i <= skip_num(t, i) <= t.len(),
    decreases t.len() - i,
{
    if i < t.len() && is_num_char(t[i]) {
        lemma_skip_num_bounds(t, i + 1);
    }
}

/// Skip one scalar value of a member this decoder does not store: a
/// string, a number, or one of the three JSON literals.  The position
/// after the value, or `None` where none of these starts at `i`.
pub open spec fn skip_scalar(t: Seq<char>, i: int) -> Option<int> {
    if i < 0 || i >= t.len() {
        None
    } else if t[i] == '"' {
        match parse_string_at(t, i + 1) {
            Some((v, j)) => Some(j),
            None => None,
        }
    } else if is_num_char(t[i]) {
        Some(skip_num(t, i))
    } else if is_prefix("true"@, t.skip(i)) {
        Some(i + 4)
    } else if is_prefix("false"@, t.skip(i)) {
        Some(i + 5)
    } else if is_prefix("null"@, t.skip(i)) {
        Some(i + 4)
    } else {
        None
    }
}

/// A skipped scalar ends after where it started and inside the input.
pub proof fn lemma_skip_scalar_bounds(t: Seq<char>, i: int)
    ensures
        skip_scalar(t, i) matches Some(j) ==> i < j <= t.len(),
{
    if 0 <= i < t.len() {
        if t[i] == '"' {
            lemma_parse_string_bounds(t, i + 1);
        } else if is_num_char(t[i]) {
            lemma_skip_num_bounds(t, i + 1);
        } else {
            reveal_strlit("true");
            reveal_strlit("false");
            reveal_strlit("null");
            assert("true"@.len() == 4);
            assert("false"@.len() == 5);
            assert("null"@.len() == 4);
        }
    }
}

/// One member from position `i` on: optional whitespace, a quoted key, a
/// colon, and its value.  A known key takes a string value and is stored;
/// any other member is skipped over, as the protocol's consumers do.  The
/// result carries the accumulator and the position just past the value.
pub open spec fn parse_member_at(t: Seq<char>, i: int, acc: RecordAcc) -> Option<(RecordAcc, int)> {
    let a = skip_ws(t, i);
    if i < 0 || a >= t.len() || t[a] != '"' {
        None
    } else {
        match parse_string_at(t, a + 1) {
            None => None,
            Some((k, j)) => {
                let b = skip_ws(t, j);
                if b >= t.len() || t[b] != ':' {
                    None
                } else {
                    let c = skip_ws(t, b + 1);
                    if is_known_key(k) {
                        if c < t.len() && t[c] == '"' {
                            match parse_string_at(t, c + 1) {
                                Some((v, m)) => match acc_put(acc, k, v) {
                                    Some(acc2) => Some((acc2, m)),
                                    None => None,
                                },
                                None => None,
                            }
                        } else {
                            None
                        }
                    } else {
                        match skip_scalar(t, c) {
                            Some(m) => Some((acc, m)),
                            None => None,
                        }
                    }
                }
            },
        }
    }
}

/// A parsed member ends after where it started and inside the input.
pub proof fn lemma_parse_member_bounds(t: Seq<char>, i: int, acc: RecordAcc)
    ensures
        parse_member_at(t, i, acc) matches Some(r) ==> i < r.1 <= t.len(),
{
    if 0 <= i <= t.len() {
        lemma_skip_ws_bounds(t, i);
        let a = skip_ws(t, i);
        if a < t.len() && t[a] == '"' {
            lemma_parse_string_bounds(t, a + 1);
            match parse_string_at(t, a + 1) {
                Some(kj) => {
                    let j = kj.1;
                    lemma_skip_ws_bounds(t, j);
                    let b = skip_ws(t, j);
                    if b < t.len() && t[b] == ':' {
                        lemma_skip_ws_bounds(t, b + 1);
                        let c = skip_ws(t, b + 1);
                        lemma_parse_string_bounds(t, c + 1);
                        lemma_skip_scalar_bounds(t, c);
                    }
                },
                None => {},
            }
        }
    }
}

/// Parse object members from `i` up to and including the closing brace.
pub open spec fn parse_members_at(t: Seq<char>, i: int, acc: RecordAcc) -> Option<(RecordAcc, int)>
    decreases t.len() - i,
    via parse_members_at_dec
{
    if i < 0 {
        None
    } else {
        match parse_member_at(t, i, acc) {
            None => None,
            Some((acc2, m)) => {
                let d = skip_ws(t, m);
                if d >= t.len() {
                    None
                } else if t[d] == ',' {
                    parse_members_at(t, d + 1, acc2)
                } else if t[d] == '}' {
                    Some((acc2, d + 1))
                } else {
                    None
                }
            },
        }
    }
}

#[via_fn]
proof fn parse_members_at_dec(t: Seq<char>, i: int, acc: RecordAcc) {
    if 0 <= i {
        lemma_parse_member_bounds(t, i, acc);
        match parse_member_at(t, i, acc) {
            Some(am) => {
                lemma_skip_ws_bounds(t, am.1);
            },
            None => {},
        }
    }
}

/// Parsed members end after where they started and inside the input.
pub proof fn lemma_parse_members_bounds(t: Seq<char>, i: int, acc: RecordAcc)
    ensures
        parse_members_at(t, i, acc) matches Some(r) ==> i < r.1 <= t.len(),
    decreases t.len() - i,
{
    if 0 <= i {
        lemma_parse_member_bounds(t, i, acc);
        match parse_member_at(t, i, acc) {
            Some(am) => {
                lemma_skip_ws_bounds(t, am.1);
                let d = skip_ws(t, am.1);
                if d < t.len() && t[d] == ',' {
                    lemma_parse_members_bounds(t, d + 1, am.0);
                }
            },
            None => {},
        }
    }
}

/// Parse one record object starting at its opening brace.
pub open spec fn parse_record_at(t: Seq<char>, i: int) -> Option<(RecordView, int)> {
    let a = skip_ws(t, i);
    if i < 0 || a >= t.len() || t[a] != '{' {
        None
    } else {
        match parse_members_at(t, a + 1, acc_empty()) {
            None => None,
            Some((acc, j)) => match acc_done(acc) {
                Some(r) => Some((r, j)),
                None => None,
            },
        }
    }
}

/// A parsed record ends after where it started and inside the input.
pub proof fn lemma_parse_record_bounds(t: Seq<char>, i: int)
    ensures
        parse_record_at(t, i) matches Some(r) ==> i < r.1 <= t.len(),
{
    if 0 <= i <= t.len() {
        lemma_skip_ws_bounds(t, i);
        let a = skip_ws(t, i);
        if a < t.len() && t[a] == '{' {
            lemma_parse_members_bounds(t, a + 1, acc_empty());
        }
    }
}

/// Parse comma-separated records up to and including the closing bracket.
pub open spec fn parse_records_at(t: Seq<char>, i: int) -> Option<(Seq<RecordView>, int)>
    decreases t.len() - i,
    via parse_records_at_dec
{
    if i < 0 {
        None
    } else {
        match parse_record_at(t, i) {
            None => None,
            Some((r, j)) => {
                let d = skip_ws(t, j);
                if d >= t.len() {
                    None
                } else if t[d] == ',' {
                    match parse_records_at(t, d + 1) {
                        Some((rs, m)) => Some((seq![r] + rs, m)),
                        None => None,
                    }
                } else if t[d] == ']' {
                    Some((seq![r], d + 1))
                } else {
                    None
                }
            },
        }
    }
}

#[via_fn]
proof fn parse_records_at_dec(t: Seq<char>, i: int) {
    if 0 <= i {
        lemma_parse_record_bounds(t, i);
        match parse_record_at(t, i) {
            Some(rj) => {
                lemma_skip_ws_bounds(t, rj.1);
            },
            None => {},
        }
    }
}

/// Parsed records end after where they started and inside the input.
pub proof fn lemma_parse_records_bounds(t: Seq<char>, i: int)
    ensures
        parse_records_at(t, i) matches Some(r) ==> i < r.1 <= t.len(),
    decreases t.len() - i,
{
    if 0 <= i {
        lemma_parse_record_bounds(t, i);
        match parse_record_at(t, i) {
            Some(rj) => {
                lemma_skip_ws_bounds(t, rj.1);
                let d = skip_ws(t, rj.1);
                if d < t.len() && t[d] == ',' {
                    lemma_parse_records_bounds(t, d + 1);
                }
            },
            None => {},
        }
    }
}

/// Decode a whole line as a record array.  Whitespace between tokens and
/// members this crate does not know are tolerated, as the protocol's usual
/// consumers tolerate them; anything else fails the decode.
pub open spec fn decode_spec(t: Seq<char>) -> Option<Seq<RecordView>> {
    let a = skip_ws(t, 0);
    if a < t.len() && t[a] == '[' {
        let b = skip_ws(t, a + 1);
        if b < t.len() && t[b] == ']' {
            if skip_ws(t, b + 1) == t.len() {
                Some(Seq::empty())
            } else {
                None
            }
        } else {
            match parse_records_at(t, a + 1) {
                Some((rs, j)) => if skip_ws(t, j) == t.len() {
                    Some(rs)
                } else {
                    None
                },
                None => None,
            }
        }
    } else {
        None
    }
}

/// Executable counterpart of [`hex_val`].
fn hex_val_exec(c: char) -> (r: Option<u8>)
    ensures
        match r {
            Some(d) => hex_val(c) == Some(d as int) && d < 16,
            None => hex_val(c) is None,
        },
{
    let u = c as u32;
    if 48 <= u && u <= 57 {
        Some((u - 48) as u8)
    } else if 97 <= u && u <= 102 {
        Some((u - 87) as u8)
    } else if 65 <= u && u <= 70 {
        Some((u - 55) as u8)
    } else {
        None
    }
}

/// Executable counterpart of [`simple_unesc`].
fn simple_unesc_exec(e: char) -> (r: Option<char>)
    ensures
        r == simple_unesc(e),
{
    if e == '"' {
        Some('"')
    } else if e == '\\' {
        Some('\\')
    } else if e == '/' {
        Some('/')
    } else if e == 'n' {
        Some('\n')
    } else if e == 't' {
        Some('\t')
    } else if e == 'r' {
        Some('\r')
    } else if e == 'b' {
        Some((8u8) as char)
    } else if e == 'f' {
        Some((12u8) as char)
    } else {
        None
    }
}

/// Executable counterpart of [`parse_string_at`].
fn parse_string_exec(t: &str, i: usize) -> (r: Option<(Vec<char>, usize)>)
    ensures
        match r {
            Some(p) => parse_string_at(t@, i as int) == Some((p.0@, p.1 as int)) && i < p.1
                <= t@.len(),
            None => parse_string_at(t@, i as int) is None,
        },
    decreases t@.len() - i,
{
    let n = t.unicode_len();
    if i >= n {
        return None;
    }
    let c = t.get_char(i);
    if c == '"' {
        let v: Vec<char> = Vec::new();
        proof {
            assert(v@ =~= Seq::<char>::empty());
        }
        return Some((v, i + 1));
    }
    if c == '\\' {
        if n - i < 2 {
            return None;
        }
        let e = t.get_char(i + 1);
        if e == 'u' {
            if n - i < 6 {
                return None;
            }
            if t.get_char(i + 2) != '0' || t.get_char(i + 3) != '0' {
                return None;
            }
            let h1 = hex_val_exec(t.get_char(i + 4));
            let h2 = hex_val_exec(t.get_char(i + 5));
            match (h1, h2) {
                (Some(d1), Some(d2)) => {
                    let code: u8 = d1 * 16 + d2;
                    let ch = code as char;
                    match parse_string_exec(t, i + 6) {
                        Some((s2, j)) => {
                            let mut s3 = s2;
                            s3.insert(0, ch);
                            proof {
                                assert(s3@ =~= seq![ch] + s3@.skip(1));
                            }
                            Some((s3, j))
                        },
                        None => None,
                    }
                },
                _ => None,
            }
        } else {
            match simple_unesc_exec(e) {
                Some(ch) => match parse_string_exec(t, i + 2) {
                    Some((s2, j)) => {
                        let mut s3 = s2;
                        s3.insert(0, ch);
                        proof {
                            assert(s3@ =~= seq![ch] + s3@.skip(1));
                        }
                        Some((s3, j))
                    },
                    None => None,
                },
                None => None,
            }
        }
    } else {
        match parse_string_exec(t, i + 1) {
            Some((s2, j)) => {
                let mut s3 = s2;
                s3.insert(0, c);
                proof {
                    assert(s3@ =~= seq![c] + s3@.skip(1));
                }
                Some((s3, j))
            },
            None => None,
        }
    }
}

/// Partially decoded record fields, the executable side of [`RecordAcc`].
struct FieldAcc {
    name: Option<String>,
    instance: Option<String>,
    markup: Option<String>,
    color: Option<String>,
    full_text: Option<String>,
}

impl View for FieldAcc {
    type V = RecordAcc;

    closed spec fn view(&self) -> RecordAcc {
        RecordAcc {
            name: match self.name {
                Some(s) => Some(s@),
                None => None,
            },
            instance: match self.instance {
                Some(s) => Some(s@),
                None => None,
            },
            markup: match self.markup {
                Some(s) => Some(s@),
                None => None,
            },
            color: match self.color {
                Some(s) => Some(s@),
                None => None,
            },
            full_text: match self.full_text {
                Some(s) => Some(s@),
                None => None,
            },
        }
    }
}

/// Executable counterpart of [`acc_put`].
fn acc_put_exec(acc: FieldAcc, k: &Vec<char>, v: Vec<char>) -> (r: Option<FieldAcc>)
    ensures
        match r {
            Some(a2) => acc_put(acc@, k@, v@) == Some(a2@),
            None => acc_put(acc@, k@, v@) is None,
        },
{
    let s = string_from_chars(&v);
    if chars_eq_str(k, "name") {
        if acc.name.is_some() {
            None
        } else {
            Some(FieldAcc { name: Some(s), ..acc })
        }
    } else if chars_eq_str(k, "instance") {
        if acc.instance.is_some() {
            None
        } else {
            Some(FieldAcc { instance: Some(s), ..acc })
        }
    } else if chars_eq_str(k, "markup") {
        if acc.markup.is_some() {
            None
        } else {
            Some(FieldAcc { markup: Some(s), ..acc })
        }
    } else if chars_eq_str(k, "color") {
        if acc.color.is_some() {
            None
        } else {
            Some(FieldAcc { color: Some(s), ..acc })
        }
    } else if chars_eq_str(k, "full_text") {
        if acc.full_text.is_some() {
            None
        } else {
            Some(FieldAcc { full_text: Some(s), ..acc })
        }
    } else {
        None
    }
}

/// Executable counterpart of [`skip_ws`].
fn skip_ws_exec(t: &str, i: usize) -> (r: usize)
    requires
        i <= t@.len(),
    ensures
        r as int == skip_ws(t@, i as int),
        i <= r <= t@.len(),
    decreases t@.len() - i,
{
    let n = t.unicode_len();
    if i >= n {
        return i;
    }
    let c = t.get_char(i);
    if c == ' ' || c == '\t' || c == '\n' || c == '\r' {
        skip_ws_exec(t, i + 1)
    } else {
        i
    }
}

/// Executable counterpart of [`is_num_char`].
fn is_num_char_exec(c: char) -> (r: bool)
    ensures
        r == is_num_char(c),
{
    let u = c as u32;
    (48 <= u && u <= 57) || c == '-' || c == '+' || c == '.' || c == 'e' || c == 'E'
}

/// Executable counterpart of [`skip_num`].
fn skip_num_exec(t: &str, i: usize) -> (r: usize)
    requires
        i <= t@.len(),
    ensures
        r as int == skip_num(t@, i as int),
        i <= r <= t@.len(),
    decreases t@.len() - i,
{
    let n = t.unicode_len();
    if i >= n {
        return i;
    }
    if is_num_char_exec(t.get_char(i)) {
        skip_num_exec(t, i + 1)
    } else {
        i
    }
}

/// Executable counterpart of [`skip_scalar`].
fn skip_scalar_exec(t: &str, i: usize) -> (r: Option<usize>)
    ensures
        match r {
            Some(j) => skip_scalar(t@, i as int) == Some(j as int) && i < j <= t@.len(),
            None => skip_scalar(t@, i as int) is None,
        },
{
    let n = t.unicode_len();
    if i >= n {
        return None;
    }
    let c = t.get_char(i);
    if c == '"' {
        match parse_string_exec(t, i + 1) {
            Some((_, j)) => Some(j),
            None => None,
        }
    } else if is_num_char_exec(c) {
        let j = skip_num_exec(t, i + 1);
        proof {
            assert(skip_num(t@, i as int) == skip_num(t@, i + 1));
        }
        Some(j)
    } else if matches_at(t, i, "true") {
        proof {
            reveal_strlit("true");
        }
        Some(i + 4)
    } else if matches_at(t, i, "false") {
        proof {
            reveal_strlit("false");
        }
        Some(i + 5)
    } else if matches_at(t, i, "null") {
        proof {
            reveal_strlit("null");
        }
        Some(i + 4)
    } else {
        None
    }
}

/// Executable counterpart of [`is_known_key`].
fn is_known_key_exec(k: &Vec<char>) -> (r: bool)
    ensures
        r == is_known_key(k@),
{
    chars_eq_str(k, "name") || chars_eq_str(k, "instance") || chars_eq_str(k, "markup")
        || chars_eq_str(k, "color") || chars_eq_str(k, "full_text")
}

/// Executable counterpart of [`parse_member_at`].
fn parse_member_exec(t: &str, i: usize, acc: FieldAcc) -> (r: Option<(FieldAcc, usize)>)
    requires
        i <= t@.len(),
    ensures
        match r {
            Some(p) => parse_member_at(t@, i as int, acc@) == Some((p.0@, p.1 as int)) && i < p.1
                <= t@.len(),
            None => parse_member_at(t@, i as int, acc@) is None,
        },
{
    let n = t.unicode_len();
    let a = skip_ws_exec(t, i);
    if a >= n || t.get_char(a) != '"' {
        return None;
    }
    match parse_string_exec(t, a + 1) {
        None => None,
        Some((k, j)) => {
            let b = skip_ws_exec(t, j);
            if b >= n || t.get_char(b) != ':' {
                return None;
            }
            let c = skip_ws_exec(t, b + 1);
            if is_known_key_exec(&k) {
                if c < n && t.get_char(c) == '"' {
                    match parse_string_exec(t, c + 1) {
                        Some((v, m)) => {
                            match acc_put_exec(acc, &k, v) {
                                Some(acc2) => Some((acc2, m)),
                                None => None,
                            }
                        },
                        None => None,
                    }
                } else {
                    None
                }
            } else {
                match skip_scalar_exec(t, c) {
                    Some(m) => Some((acc, m)),
                    None => None,
                }
            }
        },
    }
}

/// Executable counterpart of [`parse_members_at`].
fn parse_members_exec(t: &str, i: usize, acc: FieldAcc) -> (r: Option<(FieldAcc, usize)>)
    requires
        i <= t@.len(),
    ensures
        match r {
            Some(p) => parse_members_at(t@, i as int, acc@) == Some((p.0@, p.1 as int)) && i < p.1
                <= t@.len(),
            None => parse_members_at(t@, i as int, acc@) is None,
        },
    decreases t@.len() - i,
{
    let n = t.unicode_len();
    match parse_member_exec(t, i, acc) {
        None => None,
        Some((acc2, m)) => {
            let d = skip_ws_exec(t, m);
            if d >= n {
                return None;
            }
            let cd = t.get_char(d);
            if cd == ',' {
                parse_members_exec(t, d + 1, acc2)
            } else if cd == '}' {
                Some((acc2, d + 1))
            } else {
                None
            }
        },
    }
}

/// Executable counterpart of [`parse_record_at`].
fn parse_record_exec(t: &str, i: usize) -> (r: Option<(StatusRecord, usize)>)
    requires
        i <= t@.len(),
    ensures
        match r {
            Some(p) => parse_record_at(t@, i as int) == Some((p.0@, p.1 as int)) && i < p.1
                <= t@.len(),
            None => parse_record_at(t@, i as int) is None,
        },
{
    let n = t.unicode_len();
    let a = skip_ws_exec(t, i);
    if a >= n || t.get_char(a) != '{' {
        return None;
    }
    let acc0 = FieldAcc { name: None, instance: None, markup: None, color: None, full_text: None };
    proof {
        assert(acc0@ == acc_empty());
    }
    match parse_members_exec(t, a + 1, acc0) {
        None => None,
        Some((acc, j)) => {
            let FieldAcc { name, instance, markup, color, full_text } = acc;
            match (name, markup, full_text) {
                (Some(nm), Some(mk), Some(ft)) => {
                    let rec = StatusRecord {
                        name: nm,
                        instance,
                        markup: mk,
                        color,
                        full_text: ft,
                    };
                    proof {
                        assert(acc_done(acc@)->Some_0 =~= rec@);
                    }
                    Some((rec, j))
                },
                _ => None,
            }
        },
    }
}

/// Executable counterpart of [`parse_records_at`].
fn parse_records_exec(t: &str, i: usize) -> (r: Option<(Vec<StatusRecord>, usize)>)
    requires
        i <= t@.len(),
    ensures
        match r {
            Some(p) => parse_records_at(t@, i as int) == Some((views(p.0@), p.1 as int)) && i < p.1
                <= t@.len(),
            None => parse_records_at(t@, i as int) is None,
        },
    decreases t@.len() - i,
{
    let n = t.unicode_len();
    match parse_record_exec(t, i) {
        None => None,
        Some((rec, j)) => {
            let d = skip_ws_exec(t, j);
            if d >= n {
                return None;
            }
            let cd = t.get_char(d);
            if cd == ',' {
                match parse_records_exec(t, d + 1) {
                    Some((rs, m)) => {
                        let mut rs2 = rs;
                        rs2.insert(0, rec);
                        proof {
                            assert(views(rs2@) =~= seq![rec@] + views(rs2@.skip(1)));
                        }
                        Some((rs2, m))
                    },
                    None => None,
                }
            } else if cd == ']' {
                let mut v: Vec<StatusRecord> = Vec::new();
                v.push(rec);
                proof {
                    assert(views(v@) =~= seq![rec@]);
                }
                Some((v, d + 1))
            } else {
                None
            }
        },
    }
}

/// Decode one line as a record array, or report that it is none.
pub fn decode_records(t: &str) -> (r: Option<Vec<StatusRecord>>)
    ensures
        match r {
            Some(v) => decode_spec(t@) == Some(views(v@)),
            None => decode_spec(t@) is None,
        },
{
    let n = t.unicode_len();
    let a = skip_ws_exec(t, 0);
    if a >= n || t.get_char(a) != '[' {
        return None;
    }
    let b = skip_ws_exec(t, a + 1);
    if b < n && t.get_char(b) == ']' {
        if skip_ws_exec(t, b + 1) == n {
            let v: Vec<StatusRecord> = Vec::new();
            proof {
                assert(views(v@) =~= Seq::<RecordView>::empty());
            }
            Some(v)
        } else {
            None
        }
    } else {
        match parse_records_exec(t, a + 1) {
            Some((rs, j)) => {
                if skip_ws_exec(t, j) == n {
                    Some(rs)
                } else {
                    None
                }
            },
            None => None,
        }
    }
}

/// Appending one character extends the escape by that character's escape.
proof fn lemma_escape_snoc(s: Seq<char>, c: char)
    ensures
        escape(s.push(c)) == escape(s) + esc_char(c),
    decreases s.len(),
{
    if s.len() == 0 {
        assert(s.push(c)[0] == c);
        assert(s.push(c).skip(1) =~= Seq::<char>::empty());
        assert(escape(Seq::<char>::empty()) == Seq::<char>::empty());
        assert(escape(s.push(c)) == esc_char(c) + escape(s.push(c).skip(1)));
        assert(escape(s) == Seq::<char>::empty());
        assert(esc_char(c) + Seq::<char>::empty() =~= Seq::<char>::empty() + esc_char(c));
    } else {
        assert(s.push(c)[0] == s[0]);
        assert(s.push(c).skip(1) =~= s.skip(1).push(c));
        lemma_escape_snoc(s.skip(1), c);
        assert(escape(s.push(c)) == esc_char(s[0]) + escape(s.skip(1).push(c)));
        assert(escape(s.skip(1).push(c)) == escape(s.skip(1)) + esc_char(c));
        assert(escape(s) == esc_char(s[0]) + escape(s.skip(1)));
        assert(esc_char(s[0]) + (escape(s.skip(1)) + esc_char(c)) =~= (esc_char(s[0]) + escape(
            s.skip(1),
        )) + esc_char(c));
    }
}

/// Executable counterpart of [`hex_digit`].
fn hex_digit_exec(d: u8) -> (r: char)
    requires
        d < 16,
    ensures
        r == hex_digit(d as int),
{
    if d < 10 {
        digit(d as u64)
    } else if d == 10 {
        'a'
    } else if d == 11 {
        'b'
    } else if d == 12 {
        'c'
    } else if d == 13 {
        'd'
    } else if d == 14 {
        'e'
    } else {
        'f'
    }
}

/// Append the escape of one character.
fn push_esc_char(out: &mut Vec<char>, c: char)
    ensures
        final(out)@ == old(out)@ + esc_char(c),
{
    let u = c as u32;
    if c == '"' {
        out.push('\\');
        out.push('"');
    } else if c == '\\' {
        out.push('\\');
        out.push('\\');
    } else if u < 32 {
        out.push('\\');
        out.push('u');
        out.push('0');
        out.push('0');
        out.push(hex_digit_exec((u / 16) as u8));
        out.push(hex_digit_exec((u % 16) as u8));
    } else {
        out.push(c);
    }
    proof {
        assert(out@ =~= old(out)@ + esc_char(c));
    }
}

/// Append a quoted, escaped JSON string.
fn push_quoted(out: &mut Vec<char>, s: &str)
    ensures
        final(out)@ == old(out)@ + quoted(s@),
{
    out.push('"');
    let n = s.unicode_len();
    let mut i: usize = 0;
    while i < n
        invariant
            n == s@.len(),
            i <= n,
            out@ == old(out)@ + seq!['"'] + escape(s@.take(i as int)),
        decreases n - i,
    {
        proof {
            assert(escape(s@.take(0)) =~= Seq::<char>::empty());
        }
        push_esc_char(out, s.get_char(i));
        proof {
            lemma_escape_snoc(s@.take(i as int), s@[i as int]);
            assert(s@.take(i + 1) =~= s@.take(i as int).push(s@[i as int]));
            assert(out@ =~= old(out)@ + seq!['"'] + escape(s@.take(i + 1)));
        }
        i = i + 1;
    }
    out.push('"');
    proof {
        assert(s@.take(n as int) =~= s@);
        assert(out@ =~= old(out)@ + quoted(s@));
    }
}

/// Append one object member.
fn push_member(out: &mut Vec<char>, key: &str, val: &str)
    ensures
        final(out)@ == old(out)@ + member_wire(key@, val@),
{
    push_quoted(out, key);
    out.push(':');
    push_quoted(out, val);
    proof {
        assert(out@ =~= old(out)@ + member_wire(key@, val@));
    }
}

/// Append one record in its exact wire shape.
#[verifier::rlimit(60)]
fn push_record(out: &mut Vec<char>, rec: &StatusRecord)
    ensures
        final(out)@ == old(out)@ + record_wire(rec@),
{
    let ghost ms = members_of(rec@);
    out.push('{');
    push_member(out, "name", rec.name.as_str());
    match &rec.instance {
        Some(s) => {
            out.push(',');
            push_member(out, "instance", s.as_str());
        },
        None => {},
    }
    out.push(',');
    push_member(out, "markup", rec.markup.as_str());
    match &rec.color {
        Some(s) => {
            out.push(',');
            push_member(out, "color", s.as_str());
        },
        None => {},
    }
    out.push(',');
    push_member(out, "full_text", rec.full_text.as_str());
    out.push('}');
    proof {
        let r = rec@;
        let mn = ("name"@, r.name);
        let mm = ("markup"@, r.markup);
        let mf = ("full_text"@, r.full_text);
        match (r.instance, r.color) {
            (Some(si), Some(sc)) => {
                let mi = ("instance"@, si);
                let mc = ("color"@, sc);
                let s5 = seq![mf];
                let s4 = seq![mc, mf];
                let s3 = seq![mm, mc, mf];
                let s2 = seq![mi, mm, mc, mf];
                assert(ms =~= seq![mn, mi, mm, mc, mf]);
                assert(ms.skip(1) =~= s2);
                assert(s2.skip(1) =~= s3);
                assert(s3.skip(1) =~= s4);
                assert(s4.skip(1) =~= s5);
                assert(members_wire(s5) == member_wire(mf.0, mf.1) + seq!['}']);
                assert(members_wire(s4) == member_wire(mc.0, mc.1) + seq![','] + members_wire(s5));
                assert(members_wire(s3) == member_wire(mm.0, mm.1) + seq![','] + members_wire(s4));
                assert(members_wire(s2) == member_wire(mi.0, mi.1) + seq![','] + members_wire(s3));
                assert(members_wire(ms) == member_wire(mn.0, mn.1) + seq![','] + members_wire(s2));
                assert(out@ =~= old(out)@ + record_wire(r));
            },
            (Some(si), None) => {
                let mi = ("instance"@, si);
                let s4 = seq![mf];
                let s3 = seq![mm, mf];
                let s2 = seq![mi, mm, mf];
                assert(ms =~= seq![mn, mi, mm, mf]);
                assert(ms.skip(1) =~= s2);
                assert(s2.skip(1) =~= s3);
                assert(s3.skip(1) =~= s4);
                assert(members_wire(s4) == member_wire(mf.0, mf.1) + seq!['}']);
                assert(members_wire(s3) == member_wire(mm.0, mm.1) + seq![','] + members_wire(s4));
                assert(members_wire(s2) == member_wire(mi.0, mi.1) + seq![','] + members_wire(s3));
                assert(members_wire(ms) == member_wire(mn.0, mn.1) + seq![','] + members_wire(s2));
                assert(out@ =~= old(out)@ + record_wire(r));
            },
            (None, Some(sc)) => {
                let mc = ("color"@, sc);
                let s4 = seq![mf];
                let s3 = seq![mc, mf];
                let s2 = seq![mm, mc, mf];
                assert(ms =~= seq![mn, mm, mc, mf]);
                assert(ms.skip(1) =~= s2);
                assert(s2.skip(1) =~= s3);
                assert(s3.skip(1) =~= s4);
                assert(members_wire(s4) == member_wire(mf.0, mf.1) + seq!['}']);
                assert(members_wire(s3) == member_wire(mc.0, mc.1) + seq![','] + members_wire(s4));
                assert(members_wire(s2) == member_wire(mm.0, mm.1) + seq![','] + members_wire(s3));
                assert(members_wire(ms) == member_wire(mn.0, mn.1) + seq![','] + members_wire(s2));
                assert(out@ =~= old(out)@ + record_wire(r));
            },
            (None, None) => {
                let s3 = seq![mf];
                let s2 = seq![mm, mf];
                assert(ms =~= seq![mn, mm, mf]);
                assert(ms.skip(1) =~= s2);
                assert(s2.skip(1) =~= s3);
                assert(members_wire(s3) == member_wire(mf.0, mf.1) + seq!['}']);
                assert(members_wire(s2) == member_wire(mm.0, mm.1) + seq![','] + members_wire(s3));
                assert(members_wire(ms) == member_wire(mn.0, mn.1) + seq![','] + members_wire(s2));
                assert(out@ =~= old(out)@ + record_wire(r));
            },
        }
    }
}

/// Serialize a record list to its exact wire shape.
pub fn encode_records(items: &Vec<StatusRecord>) -> (r: Vec<char>)
    ensures
        r@ == list_wire(views(items@)),
{
    let ghost vs = views(items@);
    let mut out: Vec<char> = Vec::new();
    out.push('[');
    let n = items.len();
    if n == 0 {
        out.push(']');
        proof {
            assert(out@ =~= list_wire(vs));
        }
        return out;
    }
    let mut idx: usize = 0;
    proof {
        assert(vs.skip(0) =~= vs);
        assert(out@ + records_wire(vs) =~= list_wire(vs));
    }
    while idx < n
        invariant
            n == items@.len(),
            vs == views(items@),
            n > 0,
            idx <= n,
            out@ + records_wire(vs.skip(idx as int)) == list_wire(vs),
        decreases n - idx,
    {
        push_record(&mut out, &items[idx]);
        proof {
            assert(vs.skip(idx as int)[0] == vs[idx as int]);
            assert(vs[idx as int] == items@[idx as int]@);
        }
        if idx + 1 < n {
            out.push(',');
            proof {
                assert(vs.skip(idx as int).len() >= 2);
                assert(vs.skip(idx as int).skip(1) =~= vs.skip(idx + 1));
                assert(records_wire(vs.skip(idx as int)) == record_wire(vs[idx as int]) + seq![',']
                    + records_wire(vs.skip(idx + 1)));
                assert(out@ + records_wire(vs.skip(idx + 1)) =~= list_wire(vs));
            }
        } else {
            out.push(']');
            proof {
                assert(vs.skip(idx as int).len() == 1);
                assert(records_wire(vs.skip(idx as int)) == record_wire(vs[idx as int]) + seq![
                    ']',
                ]);
                assert(vs.skip(idx + 1) =~= Seq::<RecordView>::empty());
                assert(out@ + records_wire(vs.skip(idx + 1)) =~= list_wire(vs));
            }
        }
        idx = idx + 1;
    }
    proof {
        assert(vs.skip(n as int) =~= Seq::<RecordView>::empty());
        assert(out@ =~= list_wire(vs));
    }
    out
}

/// A matching subrange of a concatenation splits into matching subranges of
/// the two parts.
proof fn lemma_subrange_split(t: Seq<char>, i: int, a: Seq<char>, b: Seq<char>)
    requires
        0 <= i,
        i + a.len() + b.len() <= t.len(),
        t.subrange(i, i + a.len() + b.len()) == a + b,
    ensures
        t.subrange(i, i + a.len()) == a,
        t.subrange(i + a.len(), i + a.len() + b.len()) == b,
{
    let w = t.subrange(i, i + a.len() + b.len());
    assert forall|k: int| 0 <= k < a.len() implies t.subrange(i, i + a.len())[k] == a[k] by {
        assert(w[k] == t[i + k]);
        assert(w[k] == (a + b)[k]);
    }
    assert(t.subrange(i, i + a.len()) =~= a);
    assert forall|k: int|
        0 <= k < b.len() implies t.subrange(i + a.len(), i + a.len() + b.len())[k] == b[k] by {
        assert(w[a.len() + k] == t[i + a.len() + k]);
        assert(w[a.len() + k] == (a + b)[a.len() + k]);
    }
    assert(t.subrange(i + a.len(), i + a.len() + b.len()) =~= b);
}

/// A hexadecimal digit character reads back as its value.
proof fn lemma_hex_val_digit(d: int)
    requires
        0 <= d < 16,
    ensures
        hex_val(hex_digit(d)) == Some(d),
{
}

/// Parsing inverts escaping: at a position holding the escape of `content`
/// followed by a closing quote, the string parser returns `content` and
/// stops after the quote.
proof fn lemma_string_inversion(t: Seq<char>, i: int, content: Seq<char>)
    requires
        0 <= i,
        i + escape(content).len() + 1 <= t.len(),
        t.subrange(i, i + escape(content).len()) == escape(content),
        t[i + escape(content).len()] == '"',
    ensures
        parse_string_at(t, i) == Some((content, i + escape(content).len() + 1)),
    decreases content.len(),
{
    if content.len() == 0 {
        assert(content =~= Seq::<char>::empty());
        assert(escape(content) == Seq::<char>::empty());
        assert(t[i] == '"');
    } else {
        let c = content[0];
        let rest = content.skip(1);
        let e = esc_char(c);
        let re = escape(rest);
        assert(escape(content) == e + re);
        let ltot = e.len() + re.len();
        lemma_subrange_split(t, i, e, re);
        assert forall|k: int| 0 <= k < e.len() implies t[i + k] == e[k] by {
            assert(t.subrange(i, i + e.len())[k] == t[i + k]);
        }
        // the tail matches the escape of the rest, with the quote after it
        assert(t.subrange(i + e.len(), i + e.len() + re.len()) == re);
        lemma_string_inversion(t, i + e.len(), rest);
        assert(parse_string_at(t, i + e.len()) == Some((rest, i + ltot + 1)));
        assert(content =~= seq![c] + rest);
        if c == '"' {
            assert(e == seq!['\\', '"']);
            assert(t[i] == '\\' && t[i + 1] == '"');
            assert(simple_unesc(t[i + 1]) == Some('"'));
        } else if c == '\\' {
            assert(e == seq!['\\', '\\']);
            assert(t[i] == '\\' && t[i + 1] == '\\');
            assert(simple_unesc(t[i + 1]) == Some('\\'));
        } else if (c as u32) < 32 {
            let cv = c as u32 as int;
            assert(e == seq!['\\', 'u', '0', '0', hex_digit(cv / 16), hex_digit(cv % 16)]);
            assert(t[i] == '\\' && t[i + 1] == 'u' && t[i + 2] == '0' && t[i + 3] == '0');
            assert(t[i + 4] == hex_digit(cv / 16) && t[i + 5] == hex_digit(cv % 16));
            lemma_fundamental_div_mod(cv, 16);
            lemma_hex_val_digit(cv / 16);
            lemma_hex_val_digit(cv % 16);
            let code = hex_val(t[i + 4])->Some_0 * 16 + hex_val(t[i + 5])->Some_0;
            assert(code == cv);
            let u = c as u32;
            vstd::utf8::char_u32_cast(c, u);
            assert(code as u8 == u as u8);
            assert(((code as u8) as char) == c);
        } else {
            assert(e == seq![c]);
            assert(t[i] == c);
        }
    }
}

/// Store a whole member list in the accumulator, in order.
pub open spec fn acc_put_all(acc: RecordAcc, ms: Seq<(Seq<char>, Seq<char>)>) -> Option<RecordAcc>
    decreases ms.len(),
{
    if ms.len() == 0 {
        Some(acc)
    } else {
        match acc_put(acc, ms[0].0, ms[0].1) {
            Some(a2) => acc_put_all(a2, ms.skip(1)),
            None => None,
        }
    }
}

/// Parsing inverts member serialization: at a position holding the wire
/// shape of a member list whose keys the accumulator still accepts, the
/// member parser folds them all in and stops after the closing brace.
proof fn lemma_members_inversion(
    t: Seq<char>,
    i: int,
    ms: Seq<(Seq<char>, Seq<char>)>,
    acc: RecordAcc,
)
    requires
        ms.len() >= 1,
        acc_put_all(acc, ms) is Some,
        0 <= i,
        i + members_wire(ms).len() <= t.len(),
        t.subrange(i, i + members_wire(ms).len()) == members_wire(ms),
    ensures
        parse_members_at(t, i, acc) == Some(
            (acc_put_all(acc, ms)->Some_0, i + members_wire(ms).len()),
        ),
    decreases ms.len(),
{
    let k = ms[0].0;
    let v = ms[0].1;
    let mw = member_wire(k, v);
    let qk = quoted(k);
    let qv = quoted(v);
    let ek = escape(k);
    let ev = escape(v);
    let tail = if ms.len() == 1 {
        seq!['}']
    } else {
        seq![','] + members_wire(ms.skip(1))
    };
    assert(members_wire(ms) == mw + tail);
    lemma_subrange_split(t, i, mw, tail);
    // split the member into its quoted key, the colon, and the quoted value
    assert(mw == qk + (seq![':'] + qv)) by {
        assert(mw =~= qk + (seq![':'] + qv));
    }
    lemma_subrange_split(t, i, qk, seq![':'] + qv);
    assert(qk == seq!['"'] + (ek + seq!['"'])) by {
        assert(qk =~= seq!['"'] + (ek + seq!['"']));
    }
    lemma_subrange_split(t, i, seq!['"'], ek + seq!['"']);
    lemma_subrange_split(t, i + 1, ek, seq!['"']);
    assert(t[i] == '"') by {
        assert(t.subrange(i, i + 1)[0] == t[i]);
    }
    assert(t[i + 1 + ek.len()] == '"') by {
        assert(t.subrange(i + 1 + ek.len(), i + 1 + ek.len() + 1)[0] == t[i + 1 + ek.len()]);
    }
    lemma_string_inversion(t, i + 1, k);
    let j = i + qk.len();
    assert(parse_string_at(t, i + 1) == Some((k, j)));
    // the colon and the opening quote of the value
    let cq = i + qk.len();
    assert(t.subrange(cq, cq + 1 + qv.len()) == seq![':'] + qv);
    lemma_subrange_split(t, cq, seq![':'], qv);
    assert(t[cq] == ':') by {
        assert(t.subrange(cq, cq + 1)[0] == t[cq]);
    }
    assert(qv == seq!['"'] + (ev + seq!['"'])) by {
        assert(qv =~= seq!['"'] + (ev + seq!['"']));
    }
    lemma_subrange_split(t, cq + 1, seq!['"'], ev + seq!['"']);
    lemma_subrange_split(t, cq + 2, ev, seq!['"']);
    assert(t[cq + 1] == '"') by {
        assert(t.subrange(cq + 1, cq + 2)[0] == t[cq + 1]);
    }
    assert(t[cq + 2 + ev.len()] == '"') by {
        assert(t.subrange(cq + 2 + ev.len(), cq + 2 + ev.len() + 1)[0] == t[cq + 2 + ev.len()]);
    }
    lemma_string_inversion(t, cq + 2, v);
    let m = cq + 2 + ev.len() + 1;
    assert(parse_string_at(t, cq + 2) == Some((v, m)));
    assert(m == i + mw.len());
    let a2 = acc_put(acc, k, v)->Some_0;
    if ms.len() == 1 {
        assert(t[m] == '}') by {
            assert(t.subrange(i + mw.len(), i + mw.len() + 1)[0] == t[i + mw.len()]);
        }
        assert(acc_put_all(a2, ms.skip(1)) == Some(a2)) by {
            assert(ms.skip(1).len() == 0);
        }
    } else {
        assert(tail == seq![','] + members_wire(ms.skip(1)));
        lemma_subrange_split(t, i + mw.len(), seq![','], members_wire(ms.skip(1)));
        assert(t[m] == ',') by {
            assert(t.subrange(i + mw.len(), i + mw.len() + 1)[0] == t[i + mw.len()]);
        }
        lemma_members_inversion(t, m + 1, ms.skip(1), a2);
    }
}

/// Parsing inverts record serialization.
proof fn lemma_record_inversion(t: Seq<char>, i: int, r: RecordView)
    requires
        0 <= i,
        i + record_wire(r).len() <= t.len(),
        t.subrange(i, i + record_wire(r).len()) == record_wire(r),
    ensures
        parse_record_at(t, i) == Some((r, i + record_wire(r).len())),
{
    let ms = members_of(r);
    let mn = ("name"@, r.name);
    let mm = ("markup"@, r.markup);
    let mf = ("full_text"@, r.full_text);
    reveal_strlit("name");
    reveal_strlit("instance");
    reveal_strlit("markup");
    reveal_strlit("color");
    reveal_strlit("full_text");
    assert("name"@.len() == 4);
    assert("instance"@.len() == 8);
    assert("markup"@.len() == 6);
    assert("color"@.len() == 5);
    assert("full_text"@.len() == 9);
    assert(record_wire(r) == seq!['{'] + members_wire(ms));
    lemma_subrange_split(t, i, seq!['{'], members_wire(ms));
    assert(t[i] == '{') by {
        assert(t.subrange(i, i + 1)[0] == t[i]);
    }
    let acc1 = acc_put(acc_empty(), "name"@, r.name)->Some_0;
    let accr = RecordAcc {
        name: Some(r.name),
        instance: r.instance,
        markup: Some(r.markup),
        color: r.color,
        full_text: Some(r.full_text),
    };
    match (r.instance, r.color) {
        (Some(si), Some(sc)) => {
            let mi = ("instance"@, si);
            let mc = ("color"@, sc);
            assert(ms =~= seq![mn, mi, mm, mc, mf]);
            let s2 = seq![mi, mm, mc, mf];
            let s3 = seq![mm, mc, mf];
            let s4 = seq![mc, mf];
            let s5 = seq![mf];
            assert(ms.skip(1) =~= s2);
            assert(s2.skip(1) =~= s3);
            assert(s3.skip(1) =~= s4);
            assert(s4.skip(1) =~= s5);
            assert(s5.skip(1) =~= Seq::<(Seq<char>, Seq<char>)>::empty());
            let a1 = acc_put(acc_empty(), mn.0, mn.1)->Some_0;
            assert(acc_put_all(acc_empty(), ms) == acc_put_all(a1, s2));
            let a2 = acc_put(a1, mi.0, mi.1)->Some_0;
            assert(acc_put_all(a1, s2) == acc_put_all(a2, s3));
            let a3 = acc_put(a2, mm.0, mm.1)->Some_0;
            assert(acc_put_all(a2, s3) == acc_put_all(a3, s4));
            let a4 = acc_put(a3, mc.0, mc.1)->Some_0;
            assert(acc_put_all(a3, s4) == acc_put_all(a4, s5));
            let a5 = acc_put(a4, mf.0, mf.1)->Some_0;
            assert(acc_put_all(a4, s5) == acc_put_all(a5, s5.skip(1)));
            assert(acc_put_all(a5, s5.skip(1)) == Some(a5));
            assert(a5 == accr);
        },
        (Some(si), None) => {
            let mi = ("instance"@, si);
            assert(ms =~= seq![mn, mi, mm, mf]);
            let s2 = seq![mi, mm, mf];
            let s3 = seq![mm, mf];
            let s4 = seq![mf];
            assert(ms.skip(1) =~= s2);
            assert(s2.skip(1) =~= s3);
            assert(s3.skip(1) =~= s4);
            assert(s4.skip(1) =~= Seq::<(Seq<char>, Seq<char>)>::empty());
            let a1 = acc_put(acc_empty(), mn.0, mn.1)->Some_0;
            assert(acc_put_all(acc_empty(), ms) == acc_put_all(a1, s2));
            let a2 = acc_put(a1, mi.0, mi.1)->Some_0;
            assert(acc_put_all(a1, s2) == acc_put_all(a2, s3));
            let a3 = acc_put(a2, mm.0, mm.1)->Some_0;
            assert(acc_put_all(a2, s3) == acc_put_all(a3, s4));
            let a4 = acc_put(a3, mf.0, mf.1)->Some_0;
            assert(acc_put_all(a3, s4) == acc_put_all(a4, s4.skip(1)));
            assert(acc_put_all(a4, s4.skip(1)) == Some(a4));
            assert(a4 == accr);
        },
        (None, Some(sc)) => {
            let mc = ("color"@, sc);
            assert(ms =~= seq![mn, mm, mc, mf]);
            let s2 = seq![mm, mc, mf];
            let s3 = seq![mc, mf];
            let s4 = seq![mf];
            assert(ms.skip(1) =~= s2);
            assert(s2.skip(1) =~= s3);
            assert(s3.skip(1) =~= s4);
            assert(s4.skip(1) =~= Seq::<(Seq<char>, Seq<char>)>::empty());
            let a1 = acc_put(acc_empty(), mn.0, mn.1)->Some_0;
            assert(acc_put_all(acc_empty(), ms) == acc_put_all(a1, s2));
            let a2 = acc_put(a1, mm.0, mm.1)->Some_0;
            assert(acc_put_all(a1, s2) == acc_put_all(a2, s3));
            let a3 = acc_put(a2, mc.0, mc.1)->Some_0;
            assert(acc_put_all(a2, s3) == acc_put_all(a3, s4));
            let a4 = acc_put(a3, mf.0, mf.1)->Some_0;
            assert(acc_put_all(a3, s4) == acc_put_all(a4, s4.skip(1)));
            assert(acc_put_all(a4, s4.skip(1)) == Some(a4));
            assert(a4 == accr);
        },
        (None, None) => {
            assert(ms =~= seq![mn, mm, mf]);
            let s2 = seq![mm, mf];
            let s3 = seq![mf];
            assert(ms.skip(1) =~= s2);
            assert(s2.skip(1) =~= s3);
            assert(s3.skip(1) =~= Seq::<(Seq<char>, Seq<char>)>::empty());
            let a1 = acc_put(acc_empty(), mn.0, mn.1)->Some_0;
            assert(acc_put_all(acc_empty(), ms) == acc_put_all(a1, s2));
            let a2 = acc_put(a1, mm.0, mm.1)->Some_0;
            assert(acc_put_all(a1, s2) == acc_put_all(a2, s3));
            let a3 = acc_put(a2, mf.0, mf.1)->Some_0;
            assert(acc_put_all(a2, s3) == acc_put_all(a3, s3.skip(1)));
            assert(acc_put_all(a3, s3.skip(1)) == Some(a3));
            assert(a3 == accr);
        },
    }
    lemma_members_inversion(t, i + 1, ms, acc_empty());
    assert(acc_done(accr)->Some_0 =~= r);
}

/// Parsing inverts record-list serialization.
proof fn lemma_records_inversion(t: Seq<char>, i: int, rs: Seq<RecordView>)
    requires
        rs.len() >= 1,
        0 <= i,
        i + records_wire(rs).len() <= t.len(),
        t.subrange(i, i + records_wire(rs).len()) == records_wire(rs),
    ensures
        parse_records_at(t, i) == Some((rs, i + records_wire(rs).len())),
    decreases rs.len(),
{
    let rw = record_wire(rs[0]);
    let tail = if rs.len() == 1 {
        seq![']']
    } else {
        seq![','] + records_wire(rs.skip(1))
    };
    assert(records_wire(rs) == rw + tail);
    lemma_subrange_split(t, i, rw, tail);
    lemma_record_inversion(t, i, rs[0]);
    let j = i + rw.len();
    if rs.len() == 1 {
        assert(t[j] == ']') by {
            assert(t.subrange(j, j + 1)[0] == t[j]);
        }
        assert(rs =~= seq![rs[0]]);
    } else {
        lemma_subrange_split(t, j, seq![','], records_wire(rs.skip(1)));
        assert(t[j] == ',') by {
            assert(t.subrange(j, j + 1)[0] == t[j]);
        }
        lemma_records_inversion(t, j + 1, rs.skip(1));
        assert(rs =~= seq![rs[0]] + rs.skip(1));
    }
}

/// Law: decoding inverts encoding.  Whatever record list is put on the
/// wire, decoding the wire text yields exactly that list back.
pub proof fn lemma_wire_round_trip(rs: Seq<RecordView>)
    ensures
        decode_spec(list_wire(rs)) == Some(rs),
{
    let t = list_wire(rs);
    if rs.len() == 0 {
        assert(t == seq!['[', ']']);
        assert(t[0] == '[' && t[1] == ']');
        assert(rs =~= Seq::<RecordView>::empty());
    } else {
        let rw = records_wire(rs);
        assert(t == seq!['['] + rw);
        assert(t[0] == '[');
        // the first record opens with a brace, so this is not the empty array
        let r0w = record_wire(rs[0]);
        assert(rw[0] == r0w[0]) by {
            if rs.len() == 1 {
                assert(rw == r0w + seq![']']);
            } else {
                assert(rw == r0w + (seq![','] + records_wire(rs.skip(1))));
            }
        }
        assert(r0w[0] == '{');
        assert(t[1] == '{');
        assert(t.subrange(1, 1 + rw.len() as int) =~= rw);
        lemma_records_inversion(t, 1, rs);
        assert(parse_records_at(t, 1) == Some((rs, t.len() as int)));
    }
}

/// Law: splicing a record into a list and decoding the serialized result
/// yields the list with the record at the requested position, every other
/// record unchanged and in its original relative order.
pub proof fn lemma_splice_round_trip(rs: Seq<RecordView>, r: RecordView, k: int)
    requires
        0 <= k <= rs.len(),
    ensures
        decode_spec(list_wire(rs.insert(k, r))) == Some(rs.insert(k, r)),
        rs.insert(k, r).len() == rs.len() + 1,
        rs.insert(k, r)[k] == r,
        forall|x: int| 0 <= x < k ==> rs.insert(k, r)[x] == rs[x],
        forall|x: int| k <= x < rs.len() ==> rs.insert(k, r)[x + 1] == rs[x],
{
    lemma_wire_round_trip(rs.insert(k, r));
}

} // verus!
