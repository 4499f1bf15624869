//! A small JSON reader sufficient for the wallet endpoints' response
//! bodies: objects, arrays, strings without escape sequences, integer
//! numbers kept as their literal digits, `true`, `false` and `null`.
//! Anything outside this subset is a decode failure, never a silent
//! default.

use vstd::prelude::*;
use vstd::string::StrSliceExecFns;

verus! {

broadcast use vstd::std_specs::vec::axiom_vec_index_decreases;

/// Mathematical shape of a JSON document.
pub enum JsonV {
    Null,
    Bool(bool),
    /// The number's literal text (an optional minus sign and digits).
    Num(Seq<char>),
    Str(Seq<char>),
    Arr(Seq<JsonV>),
    Obj(Seq<(Seq<char>, JsonV)>),
}

/// An in-memory JSON document.
pub enum Json {
    Null,
    Bool(bool),
    /// The number's literal text (an optional minus sign and digits).
    Num(String),
    Str(String),
    Arr(Vec<Json>),
    Obj(Vec<(String, Json)>),
}

/// The shapes of an array's elements.
pub open spec fn items_view(items: Vec<Json>) -> Seq<JsonV>
    decreases items,
{
    Seq::new(
        items@.len(),
        |i: int|
            if 0 <= i < items@.len() {
                json_view(items[i])
            } else {
                JsonV::Null
            },
    )
}

/// The shapes of an object's fields, in document order.
pub open spec fn fields_view(fields: Vec<(String, Json)>) -> Seq<(Seq<char>, JsonV)>
    decreases fields,
{
    Seq::new(
        fields@.len(),
        |i: int|
            if 0 <= i < fields@.len() {
                (fields[i].0@, json_view(fields[i].1))
            } else {
                (Seq::<char>::empty(), JsonV::Null)
            },
    )
}

/// The shape of a document.
pub open spec fn json_view(j: Json) -> JsonV
    decreases j,
{
    match j {
        Json::Null => JsonV::Null,
        Json::Bool(b) => JsonV::Bool(b),
        Json::Num(s) => JsonV::Num(s@),
        Json::Str(s) => JsonV::Str(s@),
        Json::Arr(items) => JsonV::Arr(items_view(items)),
        Json::Obj(fields) => JsonV::Obj(fields_view(fields)),
    }
}

impl View for Json {
    type V = JsonV;

    open spec fn view(&self) -> JsonV {
        json_view(*self)
    }
}

/// JSON inter-token whitespace.
pub open spec fn is_ws(c: char) -> bool {
    c == ' ' || c == '\n' || c == '\r' || c == '\t'
}

/// A decimal digit.
pub open spec fn is_digit(c: char) -> bool {
    '0' <= c && c <= '9'
}

/// The first position at or after `i` holding no whitespace.
pub open spec fn skip_ws(s: Seq<char>, i: int) -> int
    decreases s.len() - i when 0 <= i <= s.len()
{
    if i < s.len() && is_ws(s[i]) {
        skip_ws(s, i + 1)
    } else {
        i
    }
}

/// The position of the closing quote of a string opened just before
/// `i`, unless the string runs out or holds a backslash (escape
/// sequences are not part of the subset).
pub open spec fn scan_string_end(s: Seq<char>, i: int) -> Option<int>
    decreases s.len() - i when 0 <= i <= s.len()
{
    if i >= s.len() {
        None
    } else if s[i] == '"' {
        Some(i)
    } else if s[i] == '\\' {
        None
    } else {
        scan_string_end(s, i + 1)
    }
}

/// The first position at or after `i` holding no digit.
pub open spec fn scan_digits_end(s: Seq<char>, i: int) -> int
    decreases s.len() - i when 0 <= i <= s.len()
{
    if i < s.len() && is_digit(s[i]) {
        scan_digits_end(s, i + 1)
    } else {
        i
    }
}

/// `true` written at position `i`.
pub open spec fn lit_true_at(s: Seq<char>, i: int) -> bool {
    i + 4 <= s.len() && s[i] == 't' && s[i + 1] == 'r' && s[i + 2] == 'u' && s[i + 3] == 'e'
}

/// `false` written at position `i`.
pub open spec fn lit_false_at(s: Seq<char>, i: int) -> bool {
    i + 5 <= s.len() && s[i] == 'f' && s[i + 1] == 'a' && s[i + 2] == 'l' && s[i + 3] == 's' && s[i
        + 4] == 'e'
}

/// `null` written at position `i`.
pub open spec fn lit_null_at(s: Seq<char>, i: int) -> bool {
    i + 4 <= s.len() && s[i] == 'n' && s[i + 1] == 'u' && s[i + 2] == 'l' && s[i + 3] == 'l'
}

/// One JSON value read from position `i`: leading whitespace, then an
/// object, array, string, literal or number. Yields the value's shape
/// and the position just past it.
pub open spec fn spec_parse_value(s: Seq<char>, i: int, fuel: nat) -> Option<(JsonV, int)>
    decreases fuel,
{
    if fuel == 0 {
        None
    } else {
        let j = skip_ws(s, i);
        if j >= s.len() {
            None
        } else if s[j] == '{' {
            match spec_parse_obj_items(s, j + 1, true, (fuel - 1) as nat) {
                Some((fields, k)) => Some((JsonV::Obj(fields), k)),
                None => None,
            }
        } else if s[j] == '[' {
            match spec_parse_arr_items(s, j + 1, true, (fuel - 1) as nat) {
                Some((items, k)) => Some((JsonV::Arr(items), k)),
                None => None,
            }
        } else if s[j] == '"' {
            match scan_string_end(s, j + 1) {
                Some(e) => Some((JsonV::Str(s.subrange(j + 1, e)), e + 1)),
                None => None,
            }
        } else if lit_true_at(s, j) {
            Some((JsonV::Bool(true), j + 4))
        } else if lit_false_at(s, j) {
            Some((JsonV::Bool(false), j + 5))
        } else if lit_null_at(s, j) {
            Some((JsonV::Null, j + 4))
        } else if s[j] == '-' || is_digit(s[j]) {
            let d0 = if s[j] == '-' {
                j + 1
            } else {
                j
            };
            let e = scan_digits_end(s, d0);
            if e == d0 {
                None
            } else {
                Some((JsonV::Num(s.subrange(j, e)), e))
            }
        } else {
            None
        }
    }
}

/// The elements of an array whose `[` is already consumed; `first`
/// says whether `]` may come at once.
pub open spec fn spec_parse_arr_items(s: Seq<char>, i: int, first: bool, fuel: nat) -> Option<
    (Seq<JsonV>, int),
>
    decreases fuel,
{
    if fuel == 0 {
        None
    } else {
        let j = skip_ws(s, i);
        if first && j < s.len() && s[j] == ']' {
            Some((Seq::empty(), j + 1))
        } else {
            match spec_parse_value(s, i, (fuel - 1) as nat) {
                None => None,
                Some((v, i2)) => {
                    let j2 = skip_ws(s, i2);
                    if j2 < s.len() && s[j2] == ']' {
                        Some((seq![v], j2 + 1))
                    } else if j2 < s.len() && s[j2] == ',' {
                        match spec_parse_arr_items(s, j2 + 1, false, (fuel - 1) as nat) {
                            None => None,
                            Some((rest, k)) => Some((seq![v] + rest, k)),
                        }
                    } else {
                        None
                    }
                },
            }
        }
    }
}

/// The fields of an object whose `{` is already consumed; `first`
/// says whether `}` may come at once.
pub open spec fn spec_parse_obj_items(s: Seq<char>, i: int, first: bool, fuel: nat) -> Option<
    (Seq<(Seq<char>, JsonV)>, int),
>
    decreases fuel,
{
    if fuel == 0 {
        None
    } else {
        let j = skip_ws(s, i);
        if first && j < s.len() && s[j] == '}' {
            Some((Seq::empty(), j + 1))
        } else if j < s.len() && s[j] == '"' {
            match scan_string_end(s, j + 1) {
                None => None,
                Some(e) => {
                    let key = s.subrange(j + 1, e);
                    let j2 = skip_ws(s, e + 1);
                    if j2 < s.len() && s[j2] == ':' {
                        match spec_parse_value(s, j2 + 1, (fuel - 1) as nat) {
                            None => None,
                            Some((v, i3)) => {
                                let j3 = skip_ws(s, i3);
                                if j3 < s.len() && s[j3] == '}' {
                                    Some((seq![(key, v)], j3 + 1))
                                } else if j3 < s.len() && s[j3] == ',' {
                                    match spec_parse_obj_items(s, j3 + 1, false, (fuel - 1) as nat) {
                                        None => None,
                                        Some((rest, k)) => Some((seq![(key, v)] + rest, k)),
                                    }
                                } else {
                                    None
                                }
                            },
                        }
                    } else {
                        None
                    }
                },
            }
        } else {
            None
        }
    }
}

/// Documents longer than this are refused outright, so that the
/// reader's work never outgrows a machine word.
pub open spec fn max_doc_len() -> int {
    0x1000_0000_0000_0000
}

/// The shape of a whole document: one value with nothing but
/// whitespace around it.
pub open spec fn spec_parse_json(s: Seq<char>) -> Option<JsonV> {
    if s.len() >= max_doc_len() {
        None
    } else {
        match spec_parse_value(s, 0, (2 * s.len() + 2) as nat) {
            None => None,
            Some((v, i)) => if skip_ws(s, i) == s.len() {
                Some(v)
            } else {
                None
            },
        }
    }
}

fn ws_char(c: char) -> (r: bool)
    ensures
        r == is_ws(c),
{
    c == ' ' || c == '\n' || c == '\r' || c == '\t'
}

fn digit_char(c: char) -> (r: bool)
    ensures
        r == is_digit(c),
{
    '0' <= c && c <= '9'
}

fn ws_to(s: &str, n: usize, i: usize) -> (r: usize)
    requires
        n == s@.len(),
        i <= n,
    ensures
        r as int == skip_ws(s@, i as int),
        i <= r <= n,
{
    let mut j: usize = i;
    while j < n && ws_char(s.get_char(j))
        invariant
            i <= j <= n,
            n == s@.len(),
            skip_ws(s@, i as int) == skip_ws(s@, j as int),
        decreases n - j,
    {
        j = j + 1;
    }
    j
}

fn string_end(s: &str, n: usize, i: usize) -> (r: Option<usize>)
    requires
        n == s@.len(),
        i <= n,
    ensures
        match r {
            Some(e) => scan_string_end(s@, i as int) == Some(e as int) && i <= e < n
                && s@.index(e as int) == '"',
            None => scan_string_end(s@, i as int) is None,
        },
{
    let mut j: usize = i;
    while j < n
        invariant
            i <= j <= n,
            n == s@.len(),
            scan_string_end(s@, i as int) == scan_string_end(s@, j as int),
        decreases n - j,
    {
        let c = s.get_char(j);
        if c == '"' {
            return Some(j);
        }
        if c == '\\' {
            return None;
        }
        j = j + 1;
    }
    None
}

fn digits_to(s: &str, n: usize, i: usize) -> (r: usize)
    requires
        n == s@.len(),
        i <= n,
    ensures
        r as int == scan_digits_end(s@, i as int),
        i <= r <= n,
{
    let mut j: usize = i;
    while j < n && digit_char(s.get_char(j))
        invariant
            i <= j <= n,
            n == s@.len(),
            scan_digits_end(s@, i as int) == scan_digits_end(s@, j as int),
        decreases n - j,
    {
        j = j + 1;
    }
    j
}

fn parse_value(s: &str, n: usize, i: usize, fuel: u64) -> (r: Option<(Json, usize)>)
    requires
        n == s@.len(),
        i <= n,
    ensures
        match r {
            Some(p) => spec_parse_value(s@, i as int, fuel as nat) == Some((p.0@, p.1 as int))
                && i <= p.1 <= n,
            None => spec_parse_value(s@, i as int, fuel as nat) is None,
        },
    decreases fuel,
{
    if fuel == 0 {
        return None;
    }
    let j = ws_to(s, n, i);
    if j == n {
        return None;
    }
    let c = s.get_char(j);
    if c == '{' {
        match parse_obj_items(s, n, j + 1, true, fuel - 1) {
            Some((fields, k)) => {
                let v = Json::Obj(fields);
                proof {
                    assert(v@ == JsonV::Obj(fields_view(v->Obj_0)));
                }
                Some((v, k))
            },
            None => None,
        }
    } else if c == '[' {
        match parse_arr_items(s, n, j + 1, true, fuel - 1) {
            Some((items, k)) => {
                let v = Json::Arr(items);
                Some((v, k))
            },
            None => None,
        }
    } else if c == '"' {
        match string_end(s, n, j + 1) {
            Some(e) => {
                let content = s.substring_char(j + 1, e).to_owned();
                Some((Json::Str(content), e + 1))
            },
            None => None,
        }
    } else if c == 't' && n - j >= 4 && s.get_char(j + 1) == 'r' && s.get_char(j + 2) == 'u'
        && s.get_char(j + 3) == 'e' {
        Some((Json::Bool(true), j + 4))
    } else if c == 'f' && n - j >= 5 && s.get_char(j + 1) == 'a' && s.get_char(j + 2) == 'l'
        && s.get_char(j + 3) == 's' && s.get_char(j + 4) == 'e' {
        Some((Json::Bool(false), j + 5))
    } else if c == 'n' && n - j >= 4 && s.get_char(j + 1) == 'u' && s.get_char(j + 2) == 'l'
        && s.get_char(j + 3) == 'l' {
        Some((Json::Null, j + 4))
    } else if c == '-' || ('0' <= c && c <= '9') {
        proof {
            assert(!lit_true_at(s@, j as int));
            assert(!lit_false_at(s@, j as int));
            assert(!lit_null_at(s@, j as int));
        }
        let d0 = if c == '-' {
            j + 1
        } else {
            j
        };
        let e = digits_to(s, n, d0);
        if e == d0 {
            None
        } else {
            let text = s.substring_char(j, e).to_owned();
            Some((Json::Num(text), e))
        }
    } else {
        proof {
            assert(!lit_true_at(s@, j as int));
            assert(!lit_false_at(s@, j as int));
            assert(!lit_null_at(s@, j as int));
        }
        None
    }
}

fn parse_arr_items(s: &str, n: usize, i: usize, first: bool, fuel: u64) -> (r: Option<
    (Vec<Json>, usize),
>)
    requires
        n == s@.len(),
        i <= n,
    ensures
        match r {
            Some(p) => spec_parse_arr_items(s@, i as int, first, fuel as nat) == Some(
                (items_view(p.0), p.1 as int),
            ) && i <= p.1 <= n,
            None => spec_parse_arr_items(s@, i as int, first, fuel as nat) is None,
        },
    decreases fuel,
{
    if fuel == 0 {
        return None;
    }
    let j = ws_to(s, n, i);
    if first && j < n && s.get_char(j) == ']' {
        let items: Vec<Json> = Vec::new();
        proof {
            assert(items_view(items) =~= Seq::<JsonV>::empty());
        }
        return Some((items, j + 1));
    }
    match parse_value(s, n, i, fuel - 1) {
        None => None,
        Some((v, i2)) => {
            let j2 = ws_to(s, n, i2);
            if j2 < n && s.get_char(j2) == ']' {
                let mut items: Vec<Json> = Vec::new();
                let ghost vv = v@;
                items.push(v);
                proof {
                    assert(items_view(items) =~= seq![vv]);
                }
                Some((items, j2 + 1))
            } else if j2 < n && s.get_char(j2) == ',' {
                match parse_arr_items(s, n, j2 + 1, false, fuel - 1) {
                    None => None,
                    Some((mut rest, k)) => {
                        let ghost rv = items_view(rest);
                        let ghost vv = v@;
                        rest.insert(0, v);
                        proof {
                            assert(items_view(rest) =~= seq![vv] + rv);
                        }
                        Some((rest, k))
                    },
                }
            } else {
                None
            }
        },
    }
}

fn parse_obj_items(s: &str, n: usize, i: usize, first: bool, fuel: u64) -> (r: Option<
    (Vec<(String, Json)>, usize),
>)
    requires
        n == s@.len(),
        i <= n,
    ensures
        match r {
            Some(p) => spec_parse_obj_items(s@, i as int, first, fuel as nat) == Some(
                (fields_view(p.0), p.1 as int),
            ) && i <= p.1 <= n,
            None => spec_parse_obj_items(s@, i as int, first, fuel as nat) is None,
        },
    decreases fuel,
{
    if fuel == 0 {
        return None;
    }
    let j = ws_to(s, n, i);
    if first && j < n && s.get_char(j) == '}' {
        let fields: Vec<(String, Json)> = Vec::new();
        proof {
            assert(fields_view(fields) =~= Seq::<(Seq<char>, JsonV)>::empty());
        }
        return Some((fields, j + 1));
    }
    if !(j < n && s.get_char(j) == '"') {
        return None;
    }
    match string_end(s, n, j + 1) {
        None => None,
        Some(e) => {
            let key = s.substring_char(j + 1, e).to_owned();
            let j2 = ws_to(s, n, e + 1);
            if !(j2 < n && s.get_char(j2) == ':') {
                return None;
            }
            match parse_value(s, n, j2 + 1, fuel - 1) {
                None => None,
                Some((v, i3)) => {
                    let j3 = ws_to(s, n, i3);
                    if j3 < n && s.get_char(j3) == '}' {
                        let mut fields: Vec<(String, Json)> = Vec::new();
                        let ghost kv = (key@, v@);
                        fields.push((key, v));
                        proof {
                            assert(fields_view(fields) =~= seq![kv]);
                        }
                        Some((fields, j3 + 1))
                    } else if j3 < n && s.get_char(j3) == ',' {
                        match parse_obj_items(s, n, j3 + 1, false, fuel - 1) {
                            None => None,
                            Some((mut rest, k)) => {
                                let ghost rv = fields_view(rest);
                                let ghost kv = (key@, v@);
                                rest.insert(0, (key, v));
                                proof {
                                    assert(fields_view(rest) =~= seq![kv] + rv);
                                }
                                Some((rest, k))
                            },
                        }
                    } else {
                        None
                    }
                },
            }
        },
    }
}

/// Reads a whole JSON document, or nothing when the text is not in
/// the subset this reader speaks.
pub fn parse_json(s: &str) -> (r: Option<Json>)
    ensures
        match r {
            Some(v) => spec_parse_json(s@) == Some(v@),
            None => spec_parse_json(s@) is None,
        },
{
    let n: usize = s.unicode_len();
    if n as u64 >= 0x1000_0000_0000_0000u64 {
        return None;
    }
    let fuel: u64 = 2 * (n as u64) + 2;
    match parse_value(s, n, 0, fuel) {
        None => None,
        Some((v, i)) => {
            let j = ws_to(s, n, i);
            if j == n {
                Some(v)
            } else {
                None
            }
        },
    }
}

} // verus!
