//! A verified JSON parser.
//!
//! Frames arrive as JSON text.  The grammar is specified here as a
//! recursive-descent specification over character sequences, and the
//! executable parser is proved to return exactly what the specification
//! says.  Nesting is bounded by a fixed depth limit so that parsing runs in
//! bounded stack space; numbers that are not integers fitting a machine
//! word are kept only as a shape (this protocol carries every quantity as a
//! decimal string, never as a JSON number).

use crate::decimal::digits_val;
use crate::decimal::is_digit;
use crate::decimal::lemma_digits_val_concat;
use crate::decimal::pow10;
use vstd::prelude::*;

verus! {

broadcast use vstd::seq::axiom_seq_index_decreases, vstd::std_specs::vec::axiom_vec_decreases_to_view, vstd::std_specs::vec::axiom_vec_index_decreases;

/// Mathematical model of a JSON document.
pub enum JsonSpec {
    Null,
    Bool(bool),
    Int(int),
    /// A syntactically valid number that is not an integer fitting `i64`.
    OtherNumber,
    Str(Seq<char>),
    Arr(Seq<JsonSpec>),
    Obj(Seq<(Seq<char>, JsonSpec)>),
}

/// An in-memory JSON document.
pub enum JsonValue {
    Null,
    Bool(bool),
    Int(i64),
    /// A syntactically valid number that is not an integer fitting `i64`.
    OtherNumber,
    Str(String),
    Arr(Vec<JsonValue>),
    Obj(Vec<(String, JsonValue)>),
}

impl View for JsonValue {
    type V = JsonSpec;

    open spec fn view(&self) -> JsonSpec
        decreases self,
    {
        match self {
            JsonValue::Null => JsonSpec::Null,
            JsonValue::Bool(b) => JsonSpec::Bool(*b),
            JsonValue::Int(n) => JsonSpec::Int(*n as int),
            JsonValue::OtherNumber => JsonSpec::OtherNumber,
            JsonValue::Str(s) => JsonSpec::Str(s@),
            JsonValue::Arr(items) => {
                proof {
                    assert(decreases_to!(items => items@));
                }
                JsonSpec::Arr(arr_model(items@))
            },
            JsonValue::Obj(members) => {
                proof {
                    assert(decreases_to!(members => members@));
                }
                JsonSpec::Obj(obj_model(members@))
            },
        }
    }
}

/// Model of a sequence of documents: each element viewed.
pub open spec fn arr_model(items: Seq<JsonValue>) -> Seq<JsonSpec>
    decreases items,
{
    if items.len() == 0 {
        Seq::empty()
    } else {
        seq![items[0]@] + arr_model(items.subrange(1, items.len() as int))
    }
}

/// Model of a sequence of members: each key and value viewed.
pub open spec fn obj_model(members: Seq<(String, JsonValue)>) -> Seq<(Seq<char>, JsonSpec)>
    decreases members,
{
    if members.len() == 0 {
        Seq::empty()
    } else {
        seq![(members[0].0@, members[0].1@)] + obj_model(members.subrange(1, members.len() as int))
    }
}

pub proof fn lemma_arr_model(items: Seq<JsonValue>)
    ensures
        arr_model(items).len() == items.len(),
        forall|i: int| 0 <= i < items.len() ==> arr_model(items)[i] == items[i]@,
    decreases items.len(),
{
    if items.len() > 0 {
        let tail = items.subrange(1, items.len() as int);
        lemma_arr_model(tail);
        assert(arr_model(items) == seq![items[0]@] + arr_model(tail));
        assert forall|i: int| 0 <= i < items.len() implies arr_model(items)[i] == items[i]@ by {
            if i > 0 {
                assert(arr_model(items)[i] == arr_model(tail)[i - 1]);
                assert(tail[i - 1] == items[i]);
            }
        }
    }
}

pub proof fn lemma_obj_model(members: Seq<(String, JsonValue)>)
    ensures
        obj_model(members).len() == members.len(),
        forall|i: int|
            0 <= i < members.len() ==> obj_model(members)[i] == (members[i].0@, members[i].1@),
    decreases members.len(),
{
    if members.len() > 0 {
        let tail = members.subrange(1, members.len() as int);
        lemma_obj_model(tail);
        assert(obj_model(members) == seq![(members[0].0@, members[0].1@)] + obj_model(tail));
        assert forall|i: int|
            0 <= i < members.len() implies obj_model(members)[i] == (
            members[i].0@,
            members[i].1@,
        ) by {
            if i > 0 {
                assert(obj_model(members)[i] == obj_model(tail)[i - 1]);
                assert(tail[i - 1] == members[i]);
            }
        }
    }
}

// ---------------------------------------------------------------------------
// The grammar, as a recursive-descent specification
// ---------------------------------------------------------------------------

pub open spec fn is_ws(c: char) -> bool {
    c == ' ' || c == '\t' || c == '\n' || c == '\r'
}

pub open spec fn skip_ws(s: Seq<char>, i: int) -> int
    decreases s.len() - i,
    when 0 <= i <= s.len()
{
    if i < s.len() && is_ws(s[i]) {
        skip_ws(s, i + 1)
    } else {
        i
    }
}

/// `skip_ws`, clamped so that it never moves backward; the two agree on
/// every in-range start position.
pub open spec fn ws_end(s: Seq<char>, i: int) -> int {
    let j = skip_ws(s, i);
    if j < i {
        i
    } else {
        j
    }
}

pub proof fn lemma_ws_end(s: Seq<char>, i: int)
    requires
        0 <= i <= s.len(),
    ensures
        i <= ws_end(s, i) <= s.len(),
        forall|j: int| i <= j < ws_end(s, i) ==> is_ws(s[j]),
        ws_end(s, i) < s.len() ==> !is_ws(s[ws_end(s, i)]),
    decreases s.len() - i,
{
    if i < s.len() && is_ws(s[i]) {
        lemma_ws_end(s, i + 1);
        assert(skip_ws(s, i) == skip_ws(s, i + 1));
    }
}

// --- strings ---

pub open spec fn hex_val(c: char) -> int {
    if '0' <= c && c <= '9' {
        c as int - '0' as int
    } else if 'a' <= c && c <= 'f' {
        10 + c as int - 'a' as int
    } else if 'A' <= c && c <= 'F' {
        10 + c as int - 'A' as int
    } else {
        -1
    }
}

pub open spec fn is_hex(c: char) -> bool {
    hex_val(c) >= 0
}

/// The single-character escapes.
pub open spec fn esc_char(c: char) -> Option<char> {
    if c == '"' {
        Some('"')
    } else if c == '\\' {
        Some('\\')
    } else if c == '/' {
        Some('/')
    } else if c == 'b' {
        Some('\u{8}')
    } else if c == 'f' {
        Some('\u{c}')
    } else if c == 'n' {
        Some('\n')
    } else if c == 'r' {
        Some('\r')
    } else if c == 't' {
        Some('\t')
    } else {
        None
    }
}

pub open spec fn hex4_ok(s: Seq<char>, i: int) -> bool {
    &&& i + 4 <= s.len()
    &&& is_hex(s[i])
    &&& is_hex(s[i + 1])
    &&& is_hex(s[i + 2])
    &&& is_hex(s[i + 3])
}

pub open spec fn hex4(s: Seq<char>, i: int) -> int {
    hex_val(s[i]) * 0x1000 + hex_val(s[i + 1]) * 0x100 + hex_val(s[i + 2]) * 0x10 + hex_val(
        s[i + 3],
    )
}

/// Characters of a string literal, starting after the opening quote;
/// returns the decoded characters and the position after the closing quote.
pub open spec fn parse_string_body(s: Seq<char>, i: int) -> Option<(Seq<char>, int)>
    decreases s.len() - i,
    when 0 <= i <= s.len()
{
    if i >= s.len() {
        None
    } else {
        let c = s[i];
        if c == '"' {
            Some((Seq::empty(), i + 1))
        } else if c == '\\' {
            if i + 1 >= s.len() {
                None
            } else {
                let e = s[i + 1];
                if e == 'u' {
                    if !hex4_ok(s, i + 2) {
                        None
                    } else {
                        let v = hex4(s, i + 2);
                        if 0xD800 <= v <= 0xDBFF {
                            // a high surrogate must pair with a low one
                            if i + 12 <= s.len() && s[i + 6] == '\\' && s[i + 7] == 'u' && hex4_ok(
                                s,
                                i + 8,
                            ) && 0xDC00 <= hex4(s, i + 8) <= 0xDFFF {
                                let code = 0x10000 + (v - 0xD800) * 0x400 + (hex4(s, i + 8)
                                    - 0xDC00);
                                match parse_string_body(s, i + 12) {
                                    Some((rest, j)) => Some((seq![(code as u32) as char] + rest, j)),
                                    None => None,
                                }
                            } else {
                                None
                            }
                        } else if 0xDC00 <= v <= 0xDFFF {
                            None
                        } else {
                            match parse_string_body(s, i + 6) {
                                Some((rest, j)) => Some((seq![(v as u32) as char] + rest, j)),
                                None => None,
                            }
                        }
                    }
                } else {
                    match esc_char(e) {
                        Some(c2) => match parse_string_body(s, i + 2) {
                            Some((rest, j)) => Some((seq![c2] + rest, j)),
                            None => None,
                        },
                        None => None,
                    }
                }
            }
        } else if (c as u32) < 0x20 {
            None
        } else {
            match parse_string_body(s, i + 1) {
                Some((rest, j)) => Some((seq![c] + rest, j)),
                None => None,
            }
        }
    }
}

pub proof fn lemma_parse_string_advances(s: Seq<char>, i: int)
    requires
        0 <= i <= s.len(),
        parse_string_body(s, i) is Some,
    ensures
        i < parse_string_body(s, i)->Some_0.1 <= s.len(),
    decreases s.len() - i,
{
    let c = s[i];
    if c == '"' {
    } else if c == '\\' {
        let e = s[i + 1];
        if e == 'u' {
            let v = hex4(s, i + 2);
            if 0xD800 <= v <= 0xDBFF {
                lemma_parse_string_advances(s, i + 12);
            } else {
                lemma_parse_string_advances(s, i + 6);
            }
        } else {
            lemma_parse_string_advances(s, i + 2);
        }
    } else {
        lemma_parse_string_advances(s, i + 1);
    }
}

// --- numbers ---

pub open spec fn digits_end(s: Seq<char>, i: int) -> int
    decreases s.len() - i,
    when 0 <= i <= s.len()
{
    if i < s.len() && is_digit(s[i]) {
        digits_end(s, i + 1)
    } else {
        i
    }
}

pub proof fn lemma_digits_end(s: Seq<char>, i: int)
    requires
        0 <= i <= s.len(),
    ensures
        i <= digits_end(s, i) <= s.len(),
        forall|j: int| i <= j < digits_end(s, i) ==> is_digit(s[j]),
        digits_end(s, i) < s.len() ==> !is_digit(s[digits_end(s, i)]),
    decreases s.len() - i,
{
    if i < s.len() && is_digit(s[i]) {
        lemma_digits_end(s, i + 1);
        assert(digits_end(s, i) == digits_end(s, i + 1));
    }
}

/// Whether a signed integer value fits `i64`.
pub open spec fn fits_i64(neg: bool, mag: nat) -> bool {
    if neg {
        mag <= 0x8000000000000000
    } else {
        mag <= 0x7fffffffffffffff
    }
}

pub open spec fn signed_int(neg: bool, mag: nat) -> int {
    if neg {
        -(mag as int)
    } else {
        mag as int
    }
}

/// A number per the JSON grammar: optional minus, an integer part without
/// spurious leading zeros, an optional fraction, an optional exponent.
/// Plain integers that fit `i64` keep their value; anything else only its
/// shape.
pub open spec fn parse_number(s: Seq<char>, i: int) -> Option<(JsonSpec, int)>
    recommends
        0 <= i <= s.len(),
{
    let i1 = if i < s.len() && s[i] == '-' {
        i + 1
    } else {
        i
    };
    let neg = i1 != i;
    let i2 = digits_end(s, i1);
    if i2 == i1 {
        None
    } else if s[i1] == '0' && i2 > i1 + 1 {
        None
    } else {
        let has_frac = i2 < s.len() && s[i2] == '.';
        let i3 = if has_frac {
            digits_end(s, i2 + 1)
        } else {
            i2
        };
        if has_frac && i3 == i2 + 1 {
            None
        } else {
            let has_exp = i3 < s.len() && (s[i3] == 'e' || s[i3] == 'E');
            if has_exp {
                let i4 = if i3 + 1 < s.len() && (s[i3 + 1] == '+' || s[i3 + 1] == '-') {
                    i3 + 2
                } else {
                    i3 + 1
                };
                let i5 = digits_end(s, i4);
                if i5 == i4 {
                    None
                } else {
                    Some((JsonSpec::OtherNumber, i5))
                }
            } else if has_frac {
                Some((JsonSpec::OtherNumber, i3))
            } else {
                let mag = digits_val(s.subrange(i1, i2));
                if fits_i64(neg, mag) {
                    Some((JsonSpec::Int(signed_int(neg, mag)), i2))
                } else {
                    Some((JsonSpec::OtherNumber, i2))
                }
            }
        }
    }
}

pub proof fn lemma_parse_number_advances(s: Seq<char>, i: int)
    requires
        0 <= i <= s.len(),
        parse_number(s, i) is Some,
    ensures
        i < parse_number(s, i)->Some_0.1 <= s.len(),
{
    let i1 = if i < s.len() && s[i] == '-' {
        i + 1
    } else {
        i
    };
    lemma_digits_end(s, i1);
    let i2 = digits_end(s, i1);
    if i2 < s.len() && s[i2] == '.' {
        lemma_digits_end(s, i2 + 1);
    }
    let has_frac = i2 < s.len() && s[i2] == '.';
    let i3 = if has_frac {
        digits_end(s, i2 + 1)
    } else {
        i2
    };
    if i3 < s.len() && (s[i3] == 'e' || s[i3] == 'E') {
        if i3 + 1 < s.len() && (s[i3 + 1] == '+' || s[i3 + 1] == '-') {
            lemma_digits_end(s, i3 + 2);
        } else {
            lemma_digits_end(s, i3 + 1);
        }
    }
}

// --- values ---

/// Nesting bound: containers deeper than this are rejected, so that parsing
/// runs in bounded stack space.
pub open spec fn depth_limit() -> nat {
    128
}

pub open spec fn parse_value(s: Seq<char>, i: int, d: nat) -> Option<(JsonSpec, int)>
    decreases s.len() - i, 0nat,
    when 0 <= i <= s.len()
{
    let j = ws_end(s, i);
    if j >= s.len() {
        None
    } else {
        let c = s[j];
        if c == 'n' {
            if j + 4 <= s.len() && s[j + 1] == 'u' && s[j + 2] == 'l' && s[j + 3] == 'l' {
                Some((JsonSpec::Null, j + 4))
            } else {
                None
            }
        } else if c == 't' {
            if j + 4 <= s.len() && s[j + 1] == 'r' && s[j + 2] == 'u' && s[j + 3] == 'e' {
                Some((JsonSpec::Bool(true), j + 4))
            } else {
                None
            }
        } else if c == 'f' {
            if j + 5 <= s.len() && s[j + 1] == 'a' && s[j + 2] == 'l' && s[j + 3] == 's' && s[j + 4]
                == 'e' {
                Some((JsonSpec::Bool(false), j + 5))
            } else {
                None
            }
        } else if c == '"' {
            match parse_string_body(s, j + 1) {
                Some((cs, k)) => Some((JsonSpec::Str(cs), k)),
                None => None,
            }
        } else if c == '[' {
            if d == 0 {
                None
            } else {
                match parse_arr_items(s, j + 1, (d - 1) as nat) {
                    Some((items, k)) => Some((JsonSpec::Arr(items), k)),
                    None => None,
                }
            }
        } else if c == '{' {
            if d == 0 {
                None
            } else {
                match parse_obj_members(s, j + 1, (d - 1) as nat) {
                    Some((members, k)) => Some((JsonSpec::Obj(members), k)),
                    None => None,
                }
            }
        } else if c == '-' || is_digit(c) {
            parse_number(s, j)
        } else {
            None
        }
    }
}

/// Items of an array, starting after the opening bracket.
pub open spec fn parse_arr_items(s: Seq<char>, i: int, d: nat) -> Option<(Seq<JsonSpec>, int)>
    decreases s.len() - i, 1nat,
    when 0 <= i <= s.len()
{
    let j = ws_end(s, i);
    if j >= s.len() {
        None
    } else if s[j] == ']' {
        Some((Seq::empty(), j + 1))
    } else {
        match parse_value(s, i, d) {
            Some((v, k)) => if k <= i || k > s.len() {
                None
            } else {
                match parse_arr_rest(s, k, d) {
                    Some((rest, m)) => Some((seq![v] + rest, m)),
                    None => None,
                }
            },
            None => None,
        }
    }
}

/// The remaining items of an array, after at least one item was read.
pub open spec fn parse_arr_rest(s: Seq<char>, i: int, d: nat) -> Option<(Seq<JsonSpec>, int)>
    decreases s.len() - i, 2nat,
    when 0 <= i <= s.len()
{
    let j = ws_end(s, i);
    if j >= s.len() {
        None
    } else if s[j] == ']' {
        Some((Seq::empty(), j + 1))
    } else if s[j] == ',' {
        match parse_value(s, j + 1, d) {
            Some((v, k)) => if k <= i || k > s.len() {
                None
            } else {
                match parse_arr_rest(s, k, d) {
                    Some((rest, m)) => Some((seq![v] + rest, m)),
                    None => None,
                }
            },
            None => None,
        }
    } else {
        None
    }
}

/// One `"key": value` member, starting at the key's opening quote position
/// search; returns the pair and the position after the value.
pub open spec fn parse_member(s: Seq<char>, i: int, d: nat) -> Option<((Seq<char>, JsonSpec), int)>
    decreases s.len() - i, 0nat,
    when 0 <= i <= s.len()
{
    let j = ws_end(s, i);
    if j >= s.len() || s[j] != '"' {
        None
    } else {
        match parse_string_body(s, j + 1) {
            Some((key, k)) => if k <= j + 1 || k > s.len() {
                None
            } else {
                let j2 = ws_end(s, k);
                if j2 >= s.len() || s[j2] != ':' {
                    None
                } else {
                    match parse_value(s, j2 + 1, d) {
                        Some((v, m)) => Some(((key, v), m)),
                        None => None,
                    }
                }
            },
            None => None,
        }
    }
}

/// Members of an object, starting after the opening brace.
pub open spec fn parse_obj_members(s: Seq<char>, i: int, d: nat) -> Option<
    (Seq<(Seq<char>, JsonSpec)>, int),
>
    decreases s.len() - i, 1nat,
    when 0 <= i <= s.len()
{
    let j = ws_end(s, i);
    if j >= s.len() {
        None
    } else if s[j] == '}' {
        Some((Seq::empty(), j + 1))
    } else {
        match parse_member(s, i, d) {
            Some((kv, k)) => if k <= i || k > s.len() {
                None
            } else {
                match parse_obj_rest(s, k, d) {
                    Some((rest, m)) => Some((seq![kv] + rest, m)),
                    None => None,
                }
            },
            None => None,
        }
    }
}

/// The remaining members of an object, after at least one was read.
pub open spec fn parse_obj_rest(s: Seq<char>, i: int, d: nat) -> Option<
    (Seq<(Seq<char>, JsonSpec)>, int),
>
    decreases s.len() - i, 2nat,
    when 0 <= i <= s.len()
{
    let j = ws_end(s, i);
    if j >= s.len() {
        None
    } else if s[j] == '}' {
        Some((Seq::empty(), j + 1))
    } else if s[j] == ',' {
        match parse_member(s, j + 1, d) {
            Some((kv, k)) => if k <= i || k > s.len() {
                None
            } else {
                match parse_obj_rest(s, k, d) {
                    Some((rest, m)) => Some((seq![kv] + rest, m)),
                    None => None,
                }
            },
            None => None,
        }
    } else {
        None
    }
}

/// A whole document: one value with nothing but whitespace around it.
pub open spec fn parse_json(s: Seq<char>) -> Option<JsonSpec> {
    match parse_value(s, 0, depth_limit()) {
        Some((v, j)) => if 0 <= j <= s.len() && ws_end(s, j) == s.len() {
            Some(v)
        } else {
            None
        },
        None => None,
    }
}

/// Every successful parse consumes at least one character and stays within
/// the input.
pub proof fn lemma_parse_value_advances(s: Seq<char>, i: int, d: nat)
    requires
        0 <= i <= s.len(),
    ensures
        parse_value(s, i, d) is Some ==> i < parse_value(s, i, d)->Some_0.1 <= s.len(),
        parse_arr_items(s, i, d) is Some ==> i < parse_arr_items(s, i, d)->Some_0.1 <= s.len(),
        parse_arr_rest(s, i, d) is Some ==> i < parse_arr_rest(s, i, d)->Some_0.1 <= s.len(),
        parse_member(s, i, d) is Some ==> i < parse_member(s, i, d)->Some_0.1 <= s.len(),
        parse_obj_members(s, i, d) is Some ==> i < parse_obj_members(s, i, d)->Some_0.1 <= s.len(),
        parse_obj_rest(s, i, d) is Some ==> i < parse_obj_rest(s, i, d)->Some_0.1 <= s.len(),
    decreases s.len() - i, 3nat,
{
    lemma_ws_end(s, i);
    let j = ws_end(s, i);
    // value
    if j < s.len() {
        let c = s[j];
        if c == '"' {
            if parse_string_body(s, j + 1) is Some {
                lemma_parse_string_advances(s, j + 1);
            }
        } else if c == '[' {
            if d > 0 && j + 1 <= s.len() {
                lemma_parse_value_advances(s, j + 1, (d - 1) as nat);
            }
        } else if c == '{' {
            if d > 0 && j + 1 <= s.len() {
                lemma_parse_value_advances(s, j + 1, (d - 1) as nat);
            }
        } else if c == '-' || is_digit(c) {
            if parse_number(s, j) is Some {
                lemma_parse_number_advances(s, j);
            }
        }
    }
    // array items / rest
    if j < s.len() {
        if parse_value(s, i, d) is Some {
            // already covered above
        }
        if s[j] == ',' && j + 1 <= s.len() {
            lemma_parse_value_advances(s, j + 1, d);
            if parse_value(s, j + 1, d) is Some {
                let k = parse_value(s, j + 1, d)->Some_0.1;
                if i < k <= s.len() {
                    lemma_parse_value_advances(s, k, d);
                }
            }
        }
    }
    if parse_value(s, i, d) is Some {
        let k = parse_value(s, i, d)->Some_0.1;
        if i < k <= s.len() {
            lemma_parse_value_advances(s, k, d);
        }
    }
    // member
    if j < s.len() && s[j] == '"' {
        if parse_string_body(s, j + 1) is Some {
            lemma_parse_string_advances(s, j + 1);
            let k = parse_string_body(s, j + 1)->Some_0.1;
            lemma_ws_end(s, k);
            let j2 = ws_end(s, k);
            if j2 < s.len() && s[j2] == ':' {
                lemma_parse_value_advances(s, j2 + 1, d);
            }
        }
    }
    if parse_member(s, i, d) is Some {
        let k = parse_member(s, i, d)->Some_0.1;
        if i < k <= s.len() {
            lemma_parse_value_advances(s, k, d);
        }
    }
    if j < s.len() && s[j] == ',' {
        if parse_member(s, j + 1, d) is Some {
            lemma_parse_value_advances(s, j + 1, d);
            let k = parse_member(s, j + 1, d)->Some_0.1;
            if i < k <= s.len() {
                lemma_parse_value_advances(s, k, d);
            }
        }
    }
}

// ---------------------------------------------------------------------------
// The executable parser
// ---------------------------------------------------------------------------

fn is_ws_c(c: char) -> (r: bool)
    ensures
        r == is_ws(c),
{
    c == ' ' || c == '\t' || c == '\n' || c == '\r'
}

fn is_digit_c(c: char) -> (r: bool)
    ensures
        r == is_digit(c),
{
    let x = c as u32;
    48 <= x && x <= 57
}

/// First position at or after `from` holding no whitespace.
fn skip_ws_x(v: &Vec<char>, from: usize) -> (r: usize)
    requires
        from <= v@.len(),
    ensures
        r as int == ws_end(v@, from as int),
        from <= r <= v@.len(),
{
    proof {
        lemma_ws_end(v@, from as int);
    }
    let mut i = from;
    while i < v.len() && is_ws_c(v[i])
        invariant
            from <= i <= v@.len(),
            ws_end(v@, from as int) == ws_end(v@, i as int),
        decreases v@.len() - i,
    {
        proof {
            lemma_ws_end(v@, i as int);
            lemma_ws_end(v@, i + 1);
            assert(skip_ws(v@, i as int) == skip_ws(v@, i + 1));
        }
        i = i + 1;
    }
    proof {
        assert(skip_ws(v@, i as int) == i as int);
    }
    i
}

/// First position at or after `from` holding no digit.
fn digits_end_x(v: &Vec<char>, from: usize) -> (r: usize)
    requires
        from <= v@.len(),
    ensures
        r as int == digits_end(v@, from as int),
        from <= r <= v@.len(),
{
    proof {
        lemma_digits_end(v@, from as int);
    }
    let mut i = from;
    while i < v.len() && is_digit_c(v[i])
        invariant
            from <= i <= v@.len(),
            digits_end(v@, from as int) == digits_end(v@, i as int),
        decreases v@.len() - i,
    {
        proof {
            lemma_digits_end(v@, i as int);
            lemma_digits_end(v@, i + 1);
            assert(digits_end(v@, i as int) == digits_end(v@, i + 1));
        }
        i = i + 1;
    }
    proof {
        assert(digits_end(v@, i as int) == i as int);
    }
    i
}

fn hex_digit(c: char) -> (r: Option<u8>)
    ensures
        match r {
            Some(d) => is_hex(c) && d as int == hex_val(c) && d < 16,
            None => !is_hex(c),
        },
{
    let u = c as u32;
    if 48 <= u && u <= 57 {
        Some((u - 48) as u8)
    } else if 97 <= u && u <= 102 {
        Some((u - 97 + 10) as u8)
    } else if 65 <= u && u <= 70 {
        Some((u - 65 + 10) as u8)
    } else {
        None
    }
}

fn esc_char_x(e: char) -> (r: Option<char>)
    ensures
        r == esc_char(e),
{
    if e == '"' {
        Some('"')
    } else if e == '\\' {
        Some('\\')
    } else if e == '/' {
        Some('/')
    } else if e == 'b' {
        Some('\u{8}')
    } else if e == 'f' {
        Some('\u{c}')
    } else if e == 'n' {
        Some('\n')
    } else if e == 'r' {
        Some('\r')
    } else if e == 't' {
        Some('\t')
    } else {
        None
    }
}

proof fn lemma_scalar(vv: u32)
    requires
        vv <= 0x10FFFF,
        !(0xD800 <= vv && vv <= 0xDFFF),
    ensures
        vstd::utf8::is_scalar(vv),
{
}

/// Reads four hex digits at `at`, if present.
fn hex4_x(v: &Vec<char>, at: usize) -> (r: Option<u32>)
    requires
        at <= v@.len(),
    ensures
        match r {
            Some(x) => hex4_ok(v@, at as int) && x as int == hex4(v@, at as int) && x <= 0xFFFF,
            None => !hex4_ok(v@, at as int),
        },
{
    if at > v.len() || v.len() - at < 4 {
        return None;
    }
    let h0 = hex_digit(v[at]);
    let h1 = hex_digit(v[at + 1]);
    let h2 = hex_digit(v[at + 2]);
    let h3 = hex_digit(v[at + 3]);
    match (h0, h1, h2, h3) {
        (Some(a), Some(b), Some(c), Some(d)) => Some(
            (a as u32) * 0x1000 + (b as u32) * 0x100 + (c as u32) * 0x10 + (d as u32),
        ),
        _ => None,
    }
}

/// Decodes a string literal's characters, starting after the opening quote.
#[verifier::rlimit(100)]
#[verifier::spinoff_prover]
fn parse_string_body_x(v: &Vec<char>, start: usize) -> (r: Option<(Vec<char>, usize)>)
    requires
        start <= v@.len(),
    ensures
        match r {
            Some(p) => parse_string_body(v@, start as int) == Some((p.0@, p.1 as int)) && start
                < p.1 <= v@.len(),
            None => parse_string_body(v@, start as int) is None,
        },
{
    let ghost s = v@;
    let mut acc: Vec<char> = Vec::new();
    let mut k = start;
    proof {
        if parse_string_body(s, start as int) is Some {
            lemma_parse_string_advances(s, start as int);
            let (rest0, j0) = parse_string_body(s, start as int)->Some_0;
            assert(Seq::<char>::empty() + rest0 =~= rest0);
        }
    }
    loop
        invariant
            start <= k <= s.len(),
            s == v@,
            match parse_string_body(s, k as int) {
                Some((rest, j)) => parse_string_body(s, start as int) == Some((acc@ + rest, j))
                    && start < j,
                None => parse_string_body(s, start as int) is None,
            },
        decreases s.len() - k,
    {
        proof {
            if parse_string_body(s, k as int) is Some {
                lemma_parse_string_advances(s, k as int);
            }
        }
        if k >= v.len() {
            return None;
        }
        let c = v[k];
        if c == '"' {
            proof {
                assert(acc@ + Seq::<char>::empty() =~= acc@);
            }
            return Some((acc, k + 1));
        } else if c == '\\' {
            if k + 1 >= v.len() {
                return None;
            }
            let e = v[k + 1];
            if e == 'u' {
                let h = hex4_x(v, k + 2);
                if h.is_none() {
                    return None;
                }
                let val = h.unwrap();
                if 0xD800 <= val && val <= 0xDBFF {
                    if v.len() - k < 12 || !(v[k + 6] == '\\' && v[k + 7] == 'u') {
                        return None;
                    }
                    let h2 = hex4_x(v, k + 8);
                    if h2.is_none() {
                        return None;
                    }
                    let val2 = h2.unwrap();
                    if !(0xDC00 <= val2 && val2 <= 0xDFFF) {
                        return None;
                    }
                    let code: u32 = 0x10000 + (val - 0xD800) * 0x400 + (val2 - 0xDC00);
                    proof {
                        lemma_scalar(code);
                    }
                    let c2 = match crate::chars::char_from_u32(code) {
                        Some(c2) => c2,
                        None => {
                            proof {
                                assert(false);
                            }
                            return None;
                        },
                    };
                    let ghost pre = acc@;
                    acc.push(c2);
                    k = k + 12;
                    proof {
                        let r2 = parse_string_body(s, k as int);
                        if r2 is Some {
                            let (rest2, j2) = r2->Some_0;
                            assert(acc@ + rest2 =~= pre + (seq![c2] + rest2));
                        }
                    }
                } else if 0xDC00 <= val && val <= 0xDFFF {
                    return None;
                } else {
                    proof {
                        lemma_scalar(val);
                    }
                    let c2 = match crate::chars::char_from_u32(val) {
                        Some(c2) => c2,
                        None => {
                            proof {
                                assert(false);
                            }
                            return None;
                        },
                    };
                    let ghost pre = acc@;
                    acc.push(c2);
                    k = k + 6;
                    proof {
                        let r2 = parse_string_body(s, k as int);
                        if r2 is Some {
                            let (rest2, j2) = r2->Some_0;
                            assert(acc@ + rest2 =~= pre + (seq![c2] + rest2));
                        }
                    }
                }
            } else {
                let c2 = match esc_char_x(e) {
                    Some(c2) => c2,
                    None => {
                        return None;
                    },
                };
                let ghost pre = acc@;
                acc.push(c2);
                k = k + 2;
                proof {
                    let r2 = parse_string_body(s, k as int);
                    if r2 is Some {
                        let (rest2, j2) = r2->Some_0;
                        assert(acc@ + rest2 =~= pre + (seq![c2] + rest2));
                    }
                }
            }
        } else if (c as u32) < 0x20 {
            return None;
        } else {
            let ghost pre = acc@;
            acc.push(c);
            k = k + 1;
            proof {
                let r2 = parse_string_body(s, k as int);
                if r2 is Some {
                    let (rest2, j2) = r2->Some_0;
                    assert(acc@ + rest2 =~= pre + (seq![c] + rest2));
                }
            }
        }
    }
}

/// Parses a number token.
#[verifier::rlimit(100)]
fn parse_number_x(v: &Vec<char>, start: usize) -> (r: Option<(JsonValue, usize)>)
    requires
        start <= v@.len(),
    ensures
        match r {
            Some(p) => parse_number(v@, start as int) == Some((p.0@, p.1 as int)) && start < p.1
                <= v@.len(),
            None => parse_number(v@, start as int) is None,
        },
{
    let ghost s = v@;
    proof {
        if parse_number(s, start as int) is Some {
            lemma_parse_number_advances(s, start as int);
        }
    }
    let neg = start < v.len() && v[start] == '-';
    let i1 = if neg {
        start + 1
    } else {
        start
    };
    let i2 = digits_end_x(v, i1);
    proof {
        lemma_digits_end(s, i1 as int);
    }
    if i2 == i1 {
        return None;
    }
    if v[i1] == '0' && i2 > i1 + 1 {
        return None;
    }
    let has_frac = i2 < v.len() && v[i2] == '.';
    let i3 = if has_frac {
        digits_end_x(v, i2 + 1)
    } else {
        i2
    };
    if has_frac && i3 == i2 + 1 {
        return None;
    }
    let has_exp = i3 < v.len() && (v[i3] == 'e' || v[i3] == 'E');
    if has_exp {
        let i4 = if i3 + 1 < v.len() && (v[i3 + 1] == '+' || v[i3 + 1] == '-') {
            i3 + 2
        } else {
            i3 + 1
        };
        let i5 = digits_end_x(v, i4);
        if i5 == i4 {
            return None;
        }
        return Some((JsonValue::OtherNumber, i5));
    }
    if has_frac {
        return Some((JsonValue::OtherNumber, i3));
    }
    // a plain integer: fold its digits, saturating beyond the i64 range
    let ghost digits = s.subrange(i1 as int, i2 as int);
    let mut acc: u128 = 0;
    let mut big = false;
    let mut j = i1;
    while j < i2
        invariant
            i1 <= j <= i2 <= v@.len(),
            s == v@,
            digits == s.subrange(i1 as int, i2 as int),
            forall|t: int| i1 <= t < i2 ==> is_digit(s[t]),
            !big ==> acc == digits_val(s.subrange(i1 as int, j as int)) && acc
                < 0x10000000000000000,
            big ==> digits_val(s.subrange(i1 as int, j as int)) >= 0x10000000000000000,
        decreases i2 - j,
    {
        let ghost pre = s.subrange(i1 as int, j as int);
        proof {
            assert(s.subrange(i1 as int, (j + 1) as int) =~= pre.push(s[j as int]));
            assert(pre.push(s[j as int]).drop_last() =~= pre);
        }
        let c = v[j];
        let d: u8 = (c as u32 - 48) as u8;
        proof {
            assert(d as nat == crate::decimal::digit_val(c));
        }
        if big {
            proof {
                lemma_digits_val_concat(pre, seq![s[j as int]]);
                assert(pre + seq![s[j as int]] =~= pre.push(s[j as int]));
                assert(pow10(1) >= 10) by {
                    assert(pow10(0) == 1);
                };
                assert(digits_val(pre) * pow10(1) >= digits_val(pre) * 10) by (nonlinear_arith)
                    requires pow10(1) >= 10 && digits_val(pre) >= 0,
                ;
                assert(digits_val(pre) * 10 >= digits_val(pre)) by (nonlinear_arith);
            }
        } else if acc >= 0x1000000000000000 {
            // one more digit pushes past the 64-bit range; track only the bound
            let acc2 = acc * 10 + (d as u128);
            if acc2 >= 0x10000000000000000 {
                big = true;
            } else {
                acc = acc2;
            }
        } else {
            acc = acc * 10 + (d as u128);
        }
        j = j + 1;
    }
    let out: JsonValue;
    proof {
        if big {
            let whole = s.subrange(i1 as int, i2 as int);
            assert(whole =~= s.subrange(i1 as int, j as int));
        }
    }
    if big {
        out = JsonValue::OtherNumber;
    } else if neg {
        if acc > 0x8000000000000000u128 {
            out = JsonValue::OtherNumber;
        } else if acc == 0x8000000000000000u128 {
            out = JsonValue::Int(i64::MIN);
        } else {
            out = JsonValue::Int(-(acc as i64));
        }
    } else {
        if acc > 0x7fffffffffffffffu128 {
            out = JsonValue::OtherNumber;
        } else {
            out = JsonValue::Int(acc as i64);
        }
    }
    Some((out, i2))
}

/// Parses one value.
#[verifier::rlimit(100)]
fn parse_value_x(v: &Vec<char>, start: usize, d: u32) -> (r: Option<(JsonValue, usize)>)
    requires
        start <= v@.len(),
    ensures
        match r {
            Some(p) => parse_value(v@, start as int, d as nat) == Some((p.0@, p.1 as int))
                && start < p.1 <= v@.len(),
            None => parse_value(v@, start as int, d as nat) is None,
        },
    decreases v@.len() - start, 0nat,
{
    let ghost s = v@;
    proof {
        if parse_value(s, start as int, d as nat) is Some {
            lemma_parse_value_advances(s, start as int, d as nat);
        }
    }
    let j = skip_ws_x(v, start);
    if j >= v.len() {
        return None;
    }
    let c = v[j];
    if c == 'n' {
        if v.len() - j >= 4 && v[j + 1] == 'u' && v[j + 2] == 'l' && v[j + 3] == 'l' {
            Some((JsonValue::Null, j + 4))
        } else {
            None
        }
    } else if c == 't' {
        if v.len() - j >= 4 && v[j + 1] == 'r' && v[j + 2] == 'u' && v[j + 3] == 'e' {
            Some((JsonValue::Bool(true), j + 4))
        } else {
            None
        }
    } else if c == 'f' {
        if v.len() - j >= 5 && v[j + 1] == 'a' && v[j + 2] == 'l' && v[j + 3] == 's' && v[j + 4]
            == 'e' {
            Some((JsonValue::Bool(false), j + 5))
        } else {
            None
        }
    } else if c == '"' {
        match parse_string_body_x(v, j + 1) {
            Some((cs, k)) => {
                let out = crate::chars::chars_to_string(&cs);
                Some((JsonValue::Str(out), k))
            },
            None => None,
        }
    } else if c == '[' {
        if d == 0 {
            None
        } else {
            match parse_arr_x(v, j + 1, d - 1) {
                Some((items, k)) => Some((JsonValue::Arr(items), k)),
                None => None,
            }
        }
    } else if c == '{' {
        if d == 0 {
            None
        } else {
            match parse_obj_x(v, j + 1, d - 1) {
                Some((members, k)) => Some((JsonValue::Obj(members), k)),
                None => None,
            }
        }
    } else if c == '-' || is_digit_c(c) {
        parse_number_x(v, j)
    } else {
        None
    }
}

/// Parses the items of an array, after the opening bracket.
#[verifier::rlimit(100)]
fn parse_arr_x(v: &Vec<char>, start: usize, d: u32) -> (r: Option<(Vec<JsonValue>, usize)>)
    requires
        start <= v@.len(),
    ensures
        match r {
            Some(p) => parse_arr_items(v@, start as int, d as nat) == Some(
                (arr_model(p.0@), p.1 as int),
            ) && start < p.1 <= v@.len(),
            None => parse_arr_items(v@, start as int, d as nat) is None,
        },
    decreases v@.len() - start, 1nat,
{
    let ghost s = v@;
    let j = skip_ws_x(v, start);
    if j >= v.len() {
        return None;
    }
    if v[j] == ']' {
        let items: Vec<JsonValue> = Vec::new();
        proof {
            assert(arr_model(items@) =~= Seq::<JsonSpec>::empty());
        }
        return Some((items, j + 1));
    }
    let first = parse_value_x(v, start, d);
    match first {
        None => None,
        Some((val, k0)) => {
            let mut items: Vec<JsonValue> = Vec::new();
            items.push(val);
            let mut k = k0;
            proof {
                lemma_arr_model(items@);
                assert(arr_model(items@) =~= seq![val@]);
            }
            loop
                invariant
                    s == v@,
                    start < k <= s.len(),
                    parse_value(s, start as int, d as nat) is Some,
                    ({
                        let (v0, k1) = parse_value(s, start as int, d as nat)->Some_0;
                        match parse_arr_rest(s, k as int, d as nat) {
                            Some((rest, m)) => parse_arr_items(s, start as int, d as nat) == Some(
                                (arr_model(items@) + rest, m),
                            ),
                            None => parse_arr_items(s, start as int, d as nat) is None,
                        }
                    }),
                decreases s.len() - k,
            {
                let j2 = skip_ws_x(v, k);
                if j2 >= v.len() {
                    return None;
                }
                if v[j2] == ']' {
                    proof {
                        assert(arr_model(items@) + Seq::<JsonSpec>::empty() =~= arr_model(
                            items@,
                        ));
                    }
                    return Some((items, j2 + 1));
                }
                if v[j2] != ',' {
                    return None;
                }
                let nxt = parse_value_x(v, j2 + 1, d);
                match nxt {
                    None => {
                        return None;
                    },
                    Some((val2, k2)) => {
                        let ghost pre = items@;
                        items.push(val2);
                        proof {
                            lemma_arr_model(pre);
                            lemma_arr_model(items@);
                            assert(arr_model(items@) =~= arr_model(pre) + seq![val2@]);
                            let r2 = parse_arr_rest(s, k2 as int, d as nat);
                            if r2 is Some {
                                let (rest2, m2) = r2->Some_0;
                                assert((arr_model(pre) + (seq![val2@] + rest2)) =~= (arr_model(
                                    items@,
                                ) + rest2));
                            }
                        }
                        k = k2;
                    },
                }
            }
        },
    }
}

/// Parses one `"key": value` member.
#[verifier::rlimit(100)]
fn parse_member_x(v: &Vec<char>, start: usize, d: u32) -> (r: Option<((String, JsonValue), usize)>)
    requires
        start <= v@.len(),
    ensures
        match r {
            Some(p) => parse_member(v@, start as int, d as nat) == Some(
                ((p.0.0@, p.0.1@), p.1 as int),
            ) && start < p.1 <= v@.len(),
            None => parse_member(v@, start as int, d as nat) is None,
        },
    decreases v@.len() - start, 0nat,
{
    let ghost s = v@;
    proof {
        if parse_member(s, start as int, d as nat) is Some {
            lemma_parse_value_advances(s, start as int, d as nat);
        }
    }
    let j = skip_ws_x(v, start);
    if j >= v.len() || v[j] != '"' {
        return None;
    }
    let key = match parse_string_body_x(v, j + 1) {
        None => {
            return None;
        },
        Some((cs, k)) => (crate::chars::chars_to_string(&cs), k),
    };
    let (key_str, k) = key;
    let j2 = skip_ws_x(v, k);
    if j2 >= v.len() || v[j2] != ':' {
        return None;
    }
    match parse_value_x(v, j2 + 1, d) {
        None => None,
        Some((val, m)) => Some(((key_str, val), m)),
    }
}

/// Parses the members of an object, after the opening brace.
#[verifier::rlimit(100)]
fn parse_obj_x(v: &Vec<char>, start: usize, d: u32) -> (r: Option<
    (Vec<(String, JsonValue)>, usize),
>)
    requires
        start <= v@.len(),
    ensures
        match r {
            Some(p) => parse_obj_members(v@, start as int, d as nat) == Some(
                (obj_model(p.0@), p.1 as int),
            ) && start < p.1 <= v@.len(),
            None => parse_obj_members(v@, start as int, d as nat) is None,
        },
    decreases v@.len() - start, 1nat,
{
    let ghost s = v@;
    let j = skip_ws_x(v, start);
    if j >= v.len() {
        return None;
    }
    if v[j] == '}' {
        let members: Vec<(String, JsonValue)> = Vec::new();
        proof {
            assert(obj_model(members@) =~= Seq::<(Seq<char>, JsonSpec)>::empty());
        }
        return Some((members, j + 1));
    }
    let first = parse_member_x(v, start, d);
    match first {
        None => None,
        Some((kv, k0)) => {
            let ghost kv_model = (kv.0@, kv.1@);
            let mut members: Vec<(String, JsonValue)> = Vec::new();
            members.push(kv);
            let mut k = k0;
            proof {
                lemma_obj_model(members@);
                assert(obj_model(members@) =~= seq![kv_model]);
            }
            loop
                invariant
                    s == v@,
                    start < k <= s.len(),
                    match parse_obj_rest(s, k as int, d as nat) {
                        Some((rest, m)) => parse_obj_members(s, start as int, d as nat) == Some(
                            (obj_model(members@) + rest, m),
                        ),
                        None => parse_obj_members(s, start as int, d as nat) is None,
                    },
                decreases s.len() - k,
            {
                let j2 = skip_ws_x(v, k);
                if j2 >= v.len() {
                    return None;
                }
                if v[j2] == '}' {
                    proof {
                        assert(obj_model(members@) + Seq::<(Seq<char>, JsonSpec)>::empty()
                            =~= obj_model(members@));
                    }
                    return Some((members, j2 + 1));
                }
                if v[j2] != ',' {
                    return None;
                }
                let nxt = parse_member_x(v, j2 + 1, d);
                match nxt {
                    None => {
                        return None;
                    },
                    Some((kv2, k2)) => {
                        let ghost kv2_model = (kv2.0@, kv2.1@);
                        let ghost pre = members@;
                        members.push(kv2);
                        proof {
                            lemma_obj_model(pre);
                            lemma_obj_model(members@);
                            assert(obj_model(members@) =~= obj_model(pre) + seq![kv2_model]);
                            let r2 = parse_obj_rest(s, k2 as int, d as nat);
                            if r2 is Some {
                                let (rest2, m2) = r2->Some_0;
                                assert((obj_model(pre) + (seq![kv2_model] + rest2)) =~= (obj_model(
                                    members@,
                                ) + rest2));
                            }
                        }
                        k = k2;
                    },
                }
            }
        },
    }
}

/// Parses one document from the front of the text, returning it with the
/// position right after it.
pub fn parse_document(v: &Vec<char>) -> (r: Option<(JsonValue, usize)>)
    ensures
        match r {
            Some(p) => parse_value(v@, 0, depth_limit()) == Some((p.0@, p.1 as int)) && p.1
                <= v@.len(),
            None => parse_value(v@, 0, depth_limit()) is None,
        },
{
    parse_value_x(v, 0, 128)
}

/// First position at or after `from` holding no whitespace.
pub fn skip_ws_end(v: &Vec<char>, from: usize) -> (r: usize)
    ensures
        from <= v@.len() ==> r as int == ws_end(v@, from as int) && from <= r <= v@.len(),
        from > v@.len() ==> r == from,
{
    if from > v.len() {
        return from;
    }
    skip_ws_x(v, from)
}

/// Parses a whole document: one value with only whitespace around it.
pub fn parse_json_text(s: &str) -> (r: Option<JsonValue>)
    ensures
        match r {
            Some(val) => parse_json(s@) == Some(val@),
            None => parse_json(s@) is None,
        },
{
    let v = crate::chars::char_vec(s);
    match parse_value_x(&v, 0, 128) {
        None => None,
        Some((val, j)) => {
            let e = skip_ws_x(&v, j);
            if e == v.len() {
                Some(val)
            } else {
                None
            }
        },
    }
}

// ---------------------------------------------------------------------------
// Object field lookup
// ---------------------------------------------------------------------------

/// The value under a key; when a key repeats, the last member wins, as is
/// usual for JSON objects.
pub open spec fn obj_lookup(members: Seq<(Seq<char>, JsonSpec)>, key: Seq<char>) -> Option<
    JsonSpec,
>
    decreases members.len(),
{
    if members.len() == 0 {
        None
    } else if members.last().0 == key {
        Some(members.last().1)
    } else {
        obj_lookup(members.drop_last(), key)
    }
}

/// Looks a key up in an object's members, later members first.
pub fn obj_get<'a>(members: &'a Vec<(String, JsonValue)>, key: &str) -> (r: Option<
    &'a JsonValue,
>)
    ensures
        match r {
            Some(val) => obj_lookup(obj_model(members@), key@) == Some(val@),
            None => obj_lookup(obj_model(members@), key@) is None,
        },
{
    let ghost m = obj_model(members@);
    proof {
        lemma_obj_model(members@);
        assert(m.take(members@.len() as int) =~= m);
    }
    let mut i = members.len();
    while i > 0
        invariant
            i <= members@.len(),
            m == obj_model(members@),
            obj_lookup(m, key@) == obj_lookup(m.take(i as int), key@),
        decreases i,
    {
        i = i - 1;
        let pair = &members[i];
        proof {
            lemma_obj_model(members@);
            assert(m.take((i + 1) as int).last() == m[i as int]);
            assert(m.take((i + 1) as int).drop_last() =~= m.take(i as int));
        }
        if crate::chars::str_eq(pair.0.as_str(), key) {
            return Some(&pair.1);
        }
    }
    proof {
        assert(m.take(0) =~= Seq::<(Seq<char>, JsonSpec)>::empty());
    }
    None
}

// ---------------------------------------------------------------------------
// Escaping text into JSON string literals
// ---------------------------------------------------------------------------

pub open spec fn hex_char_of(d: nat) -> char {
    if d < 10 {
        crate::decimal::digit_char(d)
    } else if d == 10 {
        'a'
    } else if d == 11 {
        'b'
    } else if d == 12 {
        'c'
    } else if d == 13 {
        'd'
    } else if d == 14 {
        'e'
    } else {
        'f'
    }
}

/// How one character reads inside a JSON string literal.
pub open spec fn esc_of(c: char) -> Seq<char> {
    if c == '"' {
        seq!['\\', '"']
    } else if c == '\\' {
        seq!['\\', '\\']
    } else if c == '\u{8}' {
        seq!['\\', 'b']
    } else if c == '\u{c}' {
        seq!['\\', 'f']
    } else if c == '\n' {
        seq!['\\', 'n']
    } else if c == '\r' {
        seq!['\\', 'r']
    } else if c == '\t' {
        seq!['\\', 't']
    } else if (c as u32) < 0x20 {
        seq!['\\', 'u', '0', '0', hex_char_of(((c as u32) >> 4) as nat), hex_char_of(
            ((c as u32) & 0xf) as nat,
        )]
    } else {
        seq![c]
    }
}

/// A whole text, escaped for embedding in a JSON string literal.
pub open spec fn json_escape(s: Seq<char>) -> Seq<char>
    decreases s.len(),
{
    if s.len() == 0 {
        Seq::empty()
    } else {
        esc_of(s[0]) + json_escape(s.subrange(1, s.len() as int))
    }
}

pub fn hex_char(d: u32) -> (c: char)
    requires
        d < 16,
    ensures
        c == hex_char_of(d as nat),
{
    if d == 0 {
        '0'
    } else if d == 1 {
        '1'
    } else if d == 2 {
        '2'
    } else if d == 3 {
        '3'
    } else if d == 4 {
        '4'
    } else if d == 5 {
        '5'
    } else if d == 6 {
        '6'
    } else if d == 7 {
        '7'
    } else if d == 8 {
        '8'
    } else if d == 9 {
        '9'
    } else if d == 10 {
        'a'
    } else if d == 11 {
        'b'
    } else if d == 12 {
        'c'
    } else if d == 13 {
        'd'
    } else if d == 14 {
        'e'
    } else {
        'f'
    }
}

/// Escapes text for embedding in a JSON string literal.
pub fn escape_json_string(s: &str) -> (r: String)
    ensures
        r@ == json_escape(s@),
{
    let v = crate::chars::char_vec(s);
    let mut out: Vec<char> = Vec::new();
    let mut k: usize = 0;
    proof {
        assert(v@.skip(0) =~= v@);
    }
    while k < v.len()
        invariant
            k <= v@.len(),
            v@ == s@,
            json_escape(s@) == out@ + json_escape(v@.skip(k as int)),
        decreases v@.len() - k,
    {
        let ghost pre = out@;
        let c = v[k];
        proof {
            assert(v@.skip(k as int)[0] == c);
            assert(v@.skip(k as int).subrange(1, v@.skip(k as int).len() as int) =~= v@.skip(
                k as int + 1,
            ));
        }
        if c == '"' {
            out.push('\\');
            out.push('"');
        } else if c == '\\' {
            out.push('\\');
            out.push('\\');
        } else if c == '\u{8}' {
            out.push('\\');
            out.push('b');
        } else if c == '\u{c}' {
            out.push('\\');
            out.push('f');
        } else if c == '\n' {
            out.push('\\');
            out.push('n');
        } else if c == '\r' {
            out.push('\\');
            out.push('r');
        } else if c == '\t' {
            out.push('\\');
            out.push('t');
        } else if (c as u32) < 0x20 {
            let u = c as u32;
            proof {
                assert((u >> 4) < 16 && (u & 0xf) < 16) by (bit_vector)
                    requires u < 0x20,
                ;
            }
            out.push('\\');
            out.push('u');
            out.push('0');
            out.push('0');
            out.push(hex_char(u >> 4));
            out.push(hex_char(u & 0xf));
        } else {
            out.push(c);
        }
        proof {
            assert(out@ =~= pre + esc_of(c));
            assert(pre + (esc_of(c) + json_escape(v@.skip(k as int + 1))) =~= (pre + esc_of(c))
                + json_escape(v@.skip(k as int + 1)));
        }
        k = k + 1;
    }
    proof {
        assert(v@.skip(k as int) =~= Seq::<char>::empty());
        assert(out@ + Seq::<char>::empty() =~= out@);
    }
    crate::chars::chars_to_string(&out)
}

} // verus!
