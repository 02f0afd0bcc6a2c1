//! A parsed JSON document as plain values, and the reads the workbench makes of it.
//!
//! Numbers are kept as the bit pattern of the `f32` nearest to them, the
//! precision at which the workbench reads a number (an edge weight). Object
//! members keep their order; a key is looked up at its first occurrence.
use vstd::prelude::*;

use crate::refs::RefSet;

verus! {

#[derive(Debug, PartialEq, Eq)]
pub enum JsonValue {
    Null,
    Bool(bool),
    /// A number, as the bit pattern of the nearest `f32`.
    Number(u32),
    String(String),
    Array(Vec<JsonValue>),
    Object(Vec<(String, JsonValue)>),
}

/// Rust's `char::is_whitespace`: the Unicode White_Space property.
pub open spec fn is_white_space(c: char) -> bool {
    let u = c as u32;
    (0x9 <= u && u <= 0xd) || u == 0x20 || u == 0x85 || u == 0xa0 || u == 0x1680
        || (0x2000 <= u && u <= 0x200a) || u == 0x2028 || u == 0x2029 || u == 0x202f
        || u == 0x205f || u == 0x3000
}

/// Text that is empty once trimmed: nothing but white space.
pub open spec fn blank(s: Seq<char>) -> bool {
    forall|i: int| 0 <= i < s.len() ==> is_white_space(#[trigger] s[i])
}

pub fn is_white_space_char(c: char) -> (b: bool)
    ensures
        b == is_white_space(c),
{
    let u = c as u32;
    (0x9 <= u && u <= 0xd) || u == 0x20 || u == 0x85 || u == 0xa0 || u == 0x1680
        || (0x2000 <= u && u <= 0x200a) || u == 0x2028 || u == 0x2029 || u == 0x202f
        || u == 0x205f || u == 0x3000
}

/// Whether `s.trim().is_empty()`.
pub fn is_blank(s: &str) -> (b: bool)
    ensures
        b == blank(s@),
{
    let n = s.unicode_len();
    let mut i: usize = 0;
    while i < n
        invariant
            n == s@.len(),
            i <= n,
            forall|k: int| 0 <= k < i ==> is_white_space(#[trigger] s@[k]),
        decreases n - i,
    {
        if !is_white_space_char(s.get_char(i)) {
            return false;
        }
        i = i + 1;
    }
    true
}

/// How many white-space characters `s` starts with.
pub open spec fn lead_white(s: Seq<char>) -> nat
    decreases s.len(),
{
    if s.len() > 0 && is_white_space(s[0]) {
        1 + lead_white(s.drop_first())
    } else {
        0
    }
}

/// How many white-space characters `s` ends with.
pub open spec fn trail_white(s: Seq<char>) -> nat
    decreases s.len(),
{
    if s.len() > 0 && is_white_space(s.last()) {
        1 + trail_white(s.drop_last())
    } else {
        0
    }
}

/// `s.trim()`: `s` without its leading and trailing white space.
pub open spec fn trimmed(s: Seq<char>) -> Seq<char> {
    let t = s.subrange(lead_white(s) as int, s.len() as int);
    t.subrange(0, t.len() - trail_white(t))
}

/// `s.trim().to_owned()`.
pub fn trim_text(s: &str) -> (t: String)
    ensures
        t@ == trimmed(s@),
{
    let n = s.unicode_len();
    let mut a: usize = 0;
    assert(s@.subrange(0, n as int) =~= s@);
    while a < n && is_white_space_char(s.get_char(a))
        invariant
            n == s@.len(),
            a <= n,
            lead_white(s@) == a + lead_white(s@.subrange(a as int, n as int)),
        decreases n - a,
    {
        let ghost rest = s@.subrange(a as int, n as int);
        assert(rest[0] == s@[a as int]);
        assert(rest.drop_first() =~= s@.subrange(a + 1, n as int));
        a = a + 1;
    }
    let ghost t = s@.subrange(a as int, n as int);
    assert(lead_white(t) == 0) by {
        if a < n {
            assert(t[0] == s@[a as int]);
        }
    }
    let mut b: usize = n;
    assert(t.subrange(0, t.len() as int) =~= t);
    while b > a && is_white_space_char(s.get_char(b - 1))
        invariant
            n == s@.len(),
            a <= b <= n,
            t == s@.subrange(a as int, n as int),
            trail_white(t) == (n - b) + trail_white(s@.subrange(a as int, b as int)),
        decreases b - a,
    {
        let ghost u = s@.subrange(a as int, b as int);
        assert(u.last() == s@[b - 1]);
        assert(u.drop_last() =~= s@.subrange(a as int, b - 1));
        b = b - 1;
    }
    let ghost u = s@.subrange(a as int, b as int);
    assert(trail_white(u) == 0) by {
        if b > a {
            assert(u.last() == s@[b - 1]);
        }
    }
    assert(t.subrange(0, t.len() - trail_white(t)) =~= u);
    String::from_str(s.substring_char(a, b))
}

/// The value of the first member named `key`, when `v` is an object.
pub open spec fn member(members: Seq<(String, JsonValue)>, key: Seq<char>) -> Option<JsonValue>
    decreases members.len(),
{
    if members.len() == 0 {
        None
    } else if members[0].0@ == key {
        Some(members[0].1)
    } else {
        member(members.drop_first(), key)
    }
}

/// `v.get(key)`: a member of an object; nothing for any other value.
pub open spec fn json_get(v: JsonValue, key: Seq<char>) -> Option<JsonValue> {
    match v {
        JsonValue::Object(members) => member(members@, key),
        _ => None,
    }
}

/// `v.as_str()`.
pub open spec fn json_str(v: JsonValue) -> Option<Seq<char>> {
    match v {
        JsonValue::String(s) => Some(s@),
        _ => None,
    }
}

/// `v.get(key).and_then(as_str)`.
pub open spec fn str_member(v: JsonValue, key: Seq<char>) -> Option<Seq<char>> {
    match json_get(v, key) {
        Some(m) => json_str(m),
        None => None,
    }
}

/// `v.get(key)` of an optional value.
pub open spec fn json_get_opt(v: Option<JsonValue>, key: Seq<char>) -> Option<JsonValue> {
    match v {
        Some(v) => json_get(v, key),
        None => None,
    }
}

/// The non-blank strings anywhere inside `v`.
pub open spec fn strings_in(v: JsonValue) -> Set<Seq<char>>
    decreases v,
{
    match v {
        JsonValue::String(s) => if blank(s@) {
            Set::empty()
        } else {
            set![s@]
        },
        JsonValue::Array(items) => strings_in_items(items@),
        JsonValue::Object(members) => strings_in_members(members@),
        _ => Set::empty(),
    }
}

/// The non-blank strings inside any of `items`.
pub open spec fn strings_in_items(items: Seq<JsonValue>) -> Set<Seq<char>>
    decreases items,
{
    if items.len() == 0 {
        Set::empty()
    } else {
        proof {
            assert(decreases_to!(items => items[items.len() - 1]));
            assert(items.drop_last() =~= items.subrange(0, items.len() - 1));
        }
        strings_in_items(items.drop_last()).union(strings_in(items[items.len() - 1]))
    }
}

/// The non-blank strings inside the values of any of `members`.
pub open spec fn strings_in_members(members: Seq<(String, JsonValue)>) -> Set<Seq<char>>
    decreases members,
{
    if members.len() == 0 {
        Set::empty()
    } else {
        proof {
            assert(decreases_to!(members => members[members.len() - 1]));
            assert(members.drop_last() =~= members.subrange(0, members.len() - 1));
        }
        strings_in_members(members.drop_last()).union(strings_in(members[members.len() - 1].1))
    }
}

/// The value of the first member named `key`.
pub fn get_member<'a>(members: &'a Vec<(String, JsonValue)>, key: &str) -> (m: Option<&'a JsonValue>)
    ensures
        match m {
            Some(m) => member(members@, key@) == Some(*m),
            None => member(members@, key@) is None,
        },
{
    let ghost all = members@;
    let mut i: usize = 0;
    assert(all.subrange(0, all.len() as int) =~= all);
    while i < members.len()
        invariant
            i <= members@.len(),
            all == members@,
            member(all, key@) == member(all.subrange(i as int, all.len() as int), key@),
        decreases members@.len() - i,
    {
        let ghost rest = all.subrange(i as int, all.len() as int);
        if members[i].0 == key.to_owned() {
            assert(rest[0] == members@[i as int]);
            return Some(&members[i].1);
        }
        assert(rest.drop_first() =~= all.subrange(i + 1, all.len() as int));
        i = i + 1;
    }
    None
}

impl JsonValue {
    /// The first member named `key` of an object.
    pub fn get(&self, key: &str) -> (m: Option<&JsonValue>)
        ensures
            match m {
                Some(m) => json_get(*self, key@) == Some(*m),
                None => json_get(*self, key@) is None,
            },
    {
        match self {
            JsonValue::Object(members) => get_member(members, key),
            _ => None,
        }
    }

    pub fn as_str(&self) -> (s: Option<&String>)
        ensures
            match s {
                Some(s) => json_str(*self) == Some(s@),
                None => json_str(*self) is None,
            },
    {
        match self {
            JsonValue::String(s) => Some(s),
            _ => None,
        }
    }

    pub fn as_array(&self) -> (a: Option<&Vec<JsonValue>>)
        ensures
            match a {
                Some(a) => *self == JsonValue::Array(*a),
                None => !(*self is Array),
            },
    {
        match self {
            JsonValue::Array(items) => Some(items),
            _ => None,
        }
    }
}

/// The keys name different members.
pub open spec fn distinct_keys(keys: Seq<&str>) -> bool {
    forall|a: int, b: int| 0 <= a < b < keys.len() ==> keys[a]@ != keys[b]@
}

/// Splits an object into the values of the named members (each at its first
/// occurrence), consuming it.
pub fn take_fields(members: Vec<(String, JsonValue)>, keys: &Vec<&str>) -> (r: Vec<Option<JsonValue>>)
    requires
        distinct_keys(keys@),
    ensures
        r@.len() == keys@.len(),
        forall|k: int| 0 <= k < keys@.len() ==> #[trigger] r@[k] == member(members@, keys@[k]@),
{
    let ghost all = members@;
    let mut members = members;
    let mut r: Vec<Option<JsonValue>> = Vec::new();
    let mut k: usize = 0;
    while k < keys.len()
        invariant
            k <= keys@.len(),
            r@.len() == k,
            forall|j: int| 0 <= j < k ==> #[trigger] r@[j] == member(Seq::<(String, JsonValue)>::empty(), keys@[j]@),
        decreases keys@.len() - k,
    {
        r.push(None);
        k = k + 1;
    }
    assert(all.subrange(all.len() as int, all.len() as int) =~= Seq::<(String, JsonValue)>::empty());
    while members.len() > 0
        invariant
            distinct_keys(keys@),
            members@.len() <= all.len(),
            members@ == all.subrange(0, members@.len() as int),
            r@.len() == keys@.len(),
            forall|j: int| 0 <= j < keys@.len() ==> #[trigger] r@[j] == member(all.subrange(members@.len() as int, all.len() as int), keys@[j]@),
        decreases members@.len(),
    {
        let ghost n = members@.len() as int;
        let ghost suffix = all.subrange(n, all.len() as int);
        let ghost longer = all.subrange(n - 1, all.len() as int);
        let (key, value) = match members.pop() {
            Some(m) => m,
            None => {
                assert(false);
                return r;
            },
        };
        assert(longer[0] == (key, value));
        assert(longer.drop_first() =~= suffix);
        let mut found: Option<usize> = None;
        let mut j: usize = 0;
        while j < keys.len()
            invariant
                j <= keys@.len(),
                match found {
                    Some(f) => f < j && keys@[f as int]@ == key@,
                    None => forall|x: int| 0 <= x < j ==> keys@[x]@ != key@,
                },
            decreases keys@.len() - j,
        {
            if found.is_none() && key == keys[j].to_owned() {
                found = Some(j);
            }
            j = j + 1;
        }
        match found {
            Some(f) => {
                r.set(f, Some(value));
                assert forall|x: int| 0 <= x < keys@.len() implies #[trigger] r@[x] == member(longer, keys@[x]@) by {
                    if x != f as int {
                        assert(keys@[x]@ != keys@[f as int]@);
                    }
                }
            },
            None => {
                assert forall|x: int| 0 <= x < keys@.len() implies #[trigger] r@[x] == member(longer, keys@[x]@) by {
                }
            },
        }
        assert(members@ =~= all.subrange(0, n - 1));
    }
    assert(all.subrange(0, all.len() as int) =~= all);
    r
}

/// Adds every non-blank string inside `v`.
pub fn collect_strings(v: &JsonValue, out: &mut RefSet)
    ensures
        final(out)@.to_set() == old(out)@.to_set().union(strings_in(*v)),
    decreases v,
{
    match v {
        JsonValue::String(s) => {
            if !is_blank(s.as_str()) {
                out.insert(s.clone());
                assert(final(out)@.to_set() =~= old(out)@.to_set().union(strings_in(*v)));
            } else {
                assert(old(out)@.to_set().union(strings_in(*v)) =~= old(out)@.to_set());
            }
        },
        JsonValue::Array(items) => {
            let ghost start = out@.to_set();
            let mut i: usize = 0;
            assert(start.union(strings_in_items(items@.subrange(0, 0))) =~= start);
            while i < items.len()
                invariant
                    i <= items@.len(),
                    *v == JsonValue::Array(*items),
                    out@.to_set() == start.union(strings_in_items(items@.subrange(0, i as int))),
                decreases items@.len() - i,
            {
                proof {
                    vstd::std_specs::vec::axiom_vec_index_decreases(*items, i as int);
                    assert(decreases_to!(*v => (*v)->Array_0));
                }
                collect_strings(&items[i], out);
                proof {
                    let p = items@.subrange(0, i + 1);
                    assert(p.drop_last() =~= items@.subrange(0, i as int));
                    assert(out@.to_set() =~= start.union(strings_in_items(p)));
                }
                i = i + 1;
            }
            assert(items@.subrange(0, i as int) =~= items@);
            assert(out@.to_set() =~= start.union(strings_in(*v)));
        },
        JsonValue::Object(members) => {
            let ghost start = out@.to_set();
            let mut i: usize = 0;
            assert(start.union(strings_in_members(members@.subrange(0, 0))) =~= start);
            while i < members.len()
                invariant
                    i <= members@.len(),
                    *v == JsonValue::Object(*members),
                    out@.to_set() == start.union(strings_in_members(members@.subrange(0, i as int))),
                decreases members@.len() - i,
            {
                proof {
                    vstd::std_specs::vec::axiom_vec_index_decreases(*members, i as int);
                    assert(decreases_to!(members[i as int] => members[i as int].1));
                    assert(decreases_to!(*v => (*v)->Object_0));
                }
                collect_strings(&members[i].1, out);
                proof {
                    let p = members@.subrange(0, i + 1);
                    assert(p.drop_last() =~= members@.subrange(0, i as int));
                    assert(out@.to_set() =~= start.union(strings_in_members(p)));
                }
                i = i + 1;
            }
            assert(members@.subrange(0, i as int) =~= members@);
            assert(out@.to_set() =~= start.union(strings_in(*v)));
        },
        _ => {
            assert(old(out)@.to_set().union(strings_in(*v)) =~= old(out)@.to_set());
        },
    }
}

/// The first of two optional values that is there.
pub open spec fn first_of(a: Option<JsonValue>, b: Option<JsonValue>) -> Option<JsonValue> {
    match a {
        Some(x) => Some(x),
        None => b,
    }
}

pub open spec fn deref_opt(o: Option<&JsonValue>) -> Option<JsonValue> {
    match o {
        Some(v) => Some(*v),
        None => None,
    }
}

/// The first of two optional members that is there.
pub fn first_ref<'a>(a: Option<&'a JsonValue>, b: Option<&'a JsonValue>) -> (r: Option<&'a JsonValue>)
    ensures
        deref_opt(r) == first_of(deref_opt(a), deref_opt(b)),
{
    match a {
        Some(x) => Some(x),
        None => b,
    }
}

/// `v.get(key)` of an optional value.
pub fn get_opt<'a>(v: Option<&'a JsonValue>, key: &str) -> (r: Option<&'a JsonValue>)
    ensures
        deref_opt(r) == json_get_opt(deref_opt(v), key@),
{
    match v {
        Some(v) => v.get(key),
        None => None,
    }
}

} // verus!
