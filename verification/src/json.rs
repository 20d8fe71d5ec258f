use vstd::prelude::*;
use vstd::string::StrSliceExecFns;

verus! {

broadcast use {
    vstd::std_specs::vec::axiom_vec_decreases_to_view,
    vstd::std_specs::vec::axiom_vec_index_decreases,
    vstd::seq::axiom_seq_index_decreases,
    vstd::seq::axiom_seq_subrange_decreases,
};

/// A JSON-like document tree: the loosely typed shape that a raw world
/// snapshot arrives in. Numbers that do not fit an `i64` are carried as
/// `Null`, since every numeric field of a snapshot is an integer.
pub enum Json {
    Null,
    Bool(bool),
    Int(i64),
    Str(String),
    Arr(Vec<Json>),
    Obj(Vec<(String, Json)>),
}

/// Mathematical model of a `Json` tree.
pub enum JsonV {
    Null,
    Bool(bool),
    Int(i64),
    Str(Seq<char>),
    Arr(Seq<JsonV>),
    Obj(Seq<(Seq<char>, JsonV)>),
}

pub open spec fn json_view(j: Json) -> JsonV
    decreases j,
{
    match j {
        Json::Null => JsonV::Null,
        Json::Bool(b) => JsonV::Bool(b),
        Json::Int(i) => JsonV::Int(i),
        Json::Str(s) => JsonV::Str(s@),
        Json::Arr(a) => JsonV::Arr(json_arr_view(a@)),
        Json::Obj(o) => JsonV::Obj(json_obj_view(o@)),
    }
}

pub open spec fn json_arr_view(s: Seq<Json>) -> Seq<JsonV>
    decreases s,
{
    if s.len() == 0 {
        Seq::empty()
    } else {
        json_arr_view(s.drop_last()).push(json_view(s.last()))
    }
}

pub open spec fn json_obj_view(s: Seq<(String, Json)>) -> Seq<(Seq<char>, JsonV)>
    decreases s,
{
    if s.len() == 0 {
        Seq::empty()
    } else {
        json_obj_view(s.drop_last()).push((s.last().0@, json_view(s.last().1)))
    }
}

impl View for Json {
    type V = JsonV;

    open spec fn view(&self) -> JsonV {
        json_view(*self)
    }
}

pub proof fn lemma_json_arr_view_len(s: Seq<Json>)
    ensures
        json_arr_view(s).len() == s.len(),
        forall|i: int| 0 <= i < s.len() ==> json_arr_view(s)[i] == json_view(s[i]),
    decreases s,
{
    if s.len() > 0 {
        lemma_json_arr_view_len(s.drop_last());
    }
}

pub proof fn lemma_json_obj_view_len(s: Seq<(String, Json)>)
    ensures
        json_obj_view(s).len() == s.len(),
        forall|i: int|
            0 <= i < s.len() ==> json_obj_view(s)[i] == (s[i].0@, json_view(s[i].1)),
    decreases s,
{
    if s.len() > 0 {
        lemma_json_obj_view_len(s.drop_last());
    }
}

#[verifier::external_type_specification]
#[verifier::external_body]
pub struct ExValue(serde_json::Value);

/// The document that a parsed `serde_json::Value` holds.
pub uninterp spec fn value_model(v: serde_json::Value) -> JsonV;

/// Relies on serde_json::Value: the conversion carries each variant of the
/// parsed tree over one for one; a number outside `i64` becomes `Null`.
#[verifier::external_body]
fn value_to_json(v: &serde_json::Value) -> (r: Json)
    ensures
        r@ == value_model(*v),
{
    match v {
        serde_json::Value::Null => Json::Null,
        serde_json::Value::Bool(b) => Json::Bool(*b),
        serde_json::Value::Number(n) => n.as_i64().map_or(Json::Null, Json::Int),
        serde_json::Value::String(s) => Json::Str(s.clone()),
        serde_json::Value::Array(a) => Json::Arr(a.iter().map(value_to_json).collect()),
        serde_json::Value::Object(o) => Json::Obj(
            o.iter().map(|(k, x)| (k.clone(), value_to_json(x))).collect(),
        ),
    }
}

/// The document tree that a snapshot text parses to, or `None` where the text
/// is not well-formed JSON.
pub uninterp spec fn json_of(s: Seq<char>) -> Option<JsonV>;

/// Relies on serde_json::from_str::<Value>: whether a text parses, and to
/// what document, depends on its characters alone. The error case carries
/// serde_json's own message.
#[verifier::external_body]
pub fn parse_json(s: &str) -> (r: Result<Json, String>)
    ensures
        r matches Ok(j) ==> json_of(s@) == Some(j@),
        r is Err ==> json_of(s@) is None,
{
    match serde_json::from_str::<serde_json::Value>(s) {
        Ok(v) => Ok(value_to_json(&v)),
        Err(e) => Err(e.to_string()),
    }
}

/// Character-for-character equality of two string slices.
pub fn str_eq(a: &str, b: &str) -> (r: bool)
    ensures
        r == (a@ == b@),
{
    a.to_owned() == b.to_owned()
}

/// The value under `key` in an object's entry list; the first entry with the
/// key wins.
pub open spec fn obj_get(o: Seq<(Seq<char>, JsonV)>, key: Seq<char>) -> Option<JsonV>
    decreases o.len(),
{
    if o.len() == 0 {
        None
    } else if o[0].0 == key {
        Some(o[0].1)
    } else {
        obj_get(o.drop_first(), key)
    }
}

/// Where the keys before `i` all miss and the key at `i` hits, the lookup
/// returns the entry at `i`.
pub proof fn lemma_obj_get_hit(o: Seq<(Seq<char>, JsonV)>, key: Seq<char>, i: int)
    requires
        0 <= i < o.len(),
        forall|k: int| 0 <= k < i ==> o[k].0 != key,
        o[i].0 == key,
    ensures
        obj_get(o, key) == Some(o[i].1),
    decreases i,
{
    if i > 0 {
        lemma_obj_get_hit(o.drop_first(), key, i - 1);
    }
}

pub proof fn lemma_obj_get_miss(o: Seq<(Seq<char>, JsonV)>, key: Seq<char>)
    requires
        forall|k: int| 0 <= k < o.len() ==> o[k].0 != key,
    ensures
        obj_get(o, key) is None,
    decreases o.len(),
{
    if o.len() > 0 {
        lemma_obj_get_miss(o.drop_first(), key);
    }
}

impl Json {
    /// Look up a field of an object; `None` where this is not an object or
    /// the key is absent.
    pub fn get<'a>(&'a self, key: &str) -> (r: Option<&'a Json>)
        ensures
            match self@ {
                JsonV::Obj(entries) => match r {
                    Some(j) => obj_get(entries, key@) == Some(j@),
                    None => obj_get(entries, key@) is None,
                },
                _ => r is None,
            },
    {
        match self {
            Json::Obj(entries) => {
                proof {
                    lemma_json_obj_view_len(entries@);
                }
                let n = entries.len();
                for i in 0..n
                    invariant
                        n == entries@.len(),
                        self == Json::Obj(*entries),
                        json_obj_view(entries@).len() == entries@.len(),
                        forall|k: int|
                            0 <= k < entries@.len() ==> json_obj_view(entries@)[k] == (
                            entries@[k].0@,
                            json_view(entries@[k].1),
                            ),
                        forall|k: int| 0 <= k < i ==> entries@[k].0@ != key@,
                {
                    if str_eq(entries[i].0.as_str(), key) {
                        proof {
                            lemma_obj_get_hit(json_obj_view(entries@), key@, i as int);
                        }
                        return Some(&entries[i].1);
                    }
                }
                proof {
                    lemma_obj_get_miss(json_obj_view(entries@), key@);
                }
                None
            },
            _ => None,
        }
    }
}

/// Whether a character is a decimal digit.
pub open spec fn is_digit(c: char) -> bool {
    '0' <= c && c <= '9'
}

pub open spec fn digit_val(c: char) -> int {
    c as int - '0' as int
}

pub open spec fn all_digits(s: Seq<char>) -> bool {
    s.len() > 0 && forall|i: int| 0 <= i < s.len() ==> is_digit(#[trigger] s[i])
}

/// The non-negative integer that a digit string denotes.
pub open spec fn digits_val(s: Seq<char>) -> int
    decreases s.len(),
{
    if s.len() == 0 {
        0
    } else {
        digits_val(s.drop_last()) * 10 + digit_val(s.last())
    }
}

/// The integer that a string of digits, with an optional leading minus sign,
/// denotes; `None` where the string has any other shape or the value does not
/// fit an `i64`.
pub open spec fn spec_parse_i64(s: Seq<char>) -> Option<i64> {
    if s.len() >= 1 && s[0] == '-' && all_digits(s.skip(1)) && digits_val(s.skip(1))
        <= i64::MAX as int {
        Some((-digits_val(s.skip(1))) as i64)
    } else if all_digits(s) && digits_val(s) <= i64::MAX as int {
        Some(digits_val(s) as i64)
    } else {
        None
    }
}

pub proof fn lemma_digits_val_nonneg(s: Seq<char>)
    requires
        forall|i: int| 0 <= i < s.len() ==> is_digit(#[trigger] s[i]),
    ensures
        digits_val(s) >= 0,
    decreases s.len(),
{
    if s.len() > 0 {
        lemma_digits_val_nonneg(s.drop_last());
    }
}

/// Reading one more digit cannot shrink the value.
pub proof fn lemma_digits_val_grows(s: Seq<char>, i: int)
    requires
        forall|k: int| 0 <= k < s.len() ==> is_digit(#[trigger] s[k]),
        0 <= i <= s.len(),
    ensures
        digits_val(s) >= digits_val(s.take(i)),
    decreases s.len() - i,
{
    if i < s.len() {
        lemma_digits_val_grows(s, i + 1);
        lemma_digits_val_nonneg(s.take(i));
        assert(s.take(i + 1).drop_last() =~= s.take(i));
        assert(digits_val(s.take(i + 1)) == digits_val(s.take(i)) * 10 + digit_val(s[i]));
        assert(digits_val(s.take(i)) * 10 >= digits_val(s.take(i))) by (nonlinear_arith)
            requires
                digits_val(s.take(i)) >= 0,
        ;
    } else {
        assert(s.take(i) =~= s);
    }
}

/// Parse a decimal integer with an optional leading minus sign.
pub fn parse_i64(s: &str) -> (r: Option<i64>)
    ensures
        r == spec_parse_i64(s@),
{
    let n = s.unicode_len();
    let neg = n >= 1 && s.get_char(0) == '-';
    let start: usize = if neg {
        1
    } else {
        0
    };
    if n == start {
        proof {
            if neg {
                assert(!all_digits(s@.skip(1)));
                assert(s@[0] == '-' && !is_digit(s@[0]));
                assert(!all_digits(s@));
            } else {
                assert(!all_digits(s@));
            }
        }
        return None;
    }
    let ghost body = if neg {
        s@.skip(1)
    } else {
        s@
    };
    let mut acc: i64 = 0;
    let mut i: usize = start;
    while i < n
        invariant
            start <= i <= n,
            n == s@.len(),
            start == if neg {
                1int
            } else {
                0int
            },
            neg == (s@[0] == '-'),
            body == if neg {
                s@.skip(1)
            } else {
                s@
            },
            n > start,
            forall|k: int| 0 <= k < i - start ==> is_digit(#[trigger] body[k]),
            0 <= acc,
            acc == digits_val(body.take(i - start)),
        decreases n - i,
    {
        let c = s.get_char(i);
        if c < '0' || c > '9' {
            proof {
                assert(body[i - start] == s@[i as int]);
                assert(!is_digit(body[i - start]));
                assert(!all_digits(body));
                if neg {
                    assert(!is_digit(s@[0]));
                    assert(!all_digits(s@));
                }
            }
            return None;
        }
        let d = (c as u32 - '0' as u32) as i64;
        proof {
            assert(is_digit(body[i - start]));
            assert(d == digit_val(body[i - start]));
        }
        if acc > (i64::MAX - d) / 10 {
            proof {
                assert(acc * 10 + d > i64::MAX as int) by (nonlinear_arith)
                    requires
                        acc > (i64::MAX as int - d) / 10,
                        0 <= d <= 9,
                        acc >= 0,
                ;
                assert(body.take(i - start + 1).drop_last() =~= body.take(i - start));
                assert(digits_val(body.take(i - start + 1)) > i64::MAX as int);
                assert(forall|k: int|
                    0 <= k < i - start + 1 ==> is_digit(#[trigger] body.take(i - start + 1)[k]));
                if all_digits(body) {
                    assert(forall|k: int| 0 <= k < body.len() ==> is_digit(#[trigger] body[k]));
                    lemma_digits_val_grows(body, i - start + 1);
                    assert(digits_val(body) > i64::MAX as int);
                }
                if neg {
                    assert(!is_digit(s@[0]));
                    assert(!all_digits(s@));
                }
            }
            return None;
        }
        proof {
            assert(body.take(i - start + 1).drop_last() =~= body.take(i - start));
        }
        acc = acc * 10 + d;
        i = i + 1;
    }
    proof {
        assert(body.take(n - start) =~= body);
        assert(all_digits(body));
        assert(acc == digits_val(body));
        if neg {
            assert(!is_digit(s@[0]));
            assert(!all_digits(s@));
        }
    }
    if neg {
        Some(-acc)
    } else {
        Some(acc)
    }
}

} // verus!
