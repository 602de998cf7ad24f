//! Header storage: a map from header name to value, matched without regard to
//! ASCII case, kept in `http::HeaderMap`.
use vstd::prelude::*;

verus! {

#[verifier::external_type_specification]
#[verifier::external_body]
#[verifier::reject_recursive_types(T)]
pub struct ExHeaderMap<T>(http::HeaderMap<T>);

#[verifier::external_type_specification]
#[verifier::external_body]
pub struct ExHeaderValue(http::HeaderValue);

/// What a header map holds: each normalised name with the text of its first value.
pub uninterp spec fn header_contents(m: http::HeaderMap) -> Map<Seq<char>, Seq<char>>;

/// The names of a header map in the order of its entries, in which `keys` walks them.
pub uninterp spec fn header_order(m: http::HeaderMap) -> Seq<Seq<char>>;

/// The number of distinct names in a header map.
pub uninterp spec fn header_keys(m: http::HeaderMap) -> nat;

/// A character that `HeaderName::from_bytes` accepts in a name: a letter, a
/// digit, or one of ``!"#$%&'*+-.^_`|~``.
pub open spec fn name_char(c: char) -> bool {
    let n = c as u32;
    (97 <= n <= 122) || (65 <= n <= 90) || (48 <= n <= 57) || c == '!' || c == '"' || c == '#'
        || c == '$' || c == '%' || c == '&' || c == '\'' || c == '*' || c == '+' || c == '-'
        || c == '.' || c == '^' || c == '_' || c == '`' || c == '|' || c == '~'
}

/// An ASCII upper-case letter made lower-case; any other character unchanged.
pub open spec fn ascii_lower(c: char) -> char {
    if 65 <= c as u32 <= 90 {
        (((c as u32) + 32) as u8) as char
    } else {
        c
    }
}

/// The form `HeaderName::from_bytes` gives a name: 1 to 65535 name
/// characters, lower-cased; none where the text is not a valid name.
pub open spec fn header_key(s: Seq<char>) -> Option<Seq<char>> {
    if 1 <= s.len() <= 65535 && forall|i: int| 0 <= i < s.len() ==> name_char(#[trigger] s[i]) {
        Some(s.map_values(|c: char| ascii_lower(c)))
    } else {
        None
    }
}

/// Whether a text is accepted as a header value (`HeaderValue::from_str`):
/// every character is a tab, or at least a space and not DEL. Characters past
/// ASCII are accepted, since every byte of their UTF-8 form is.
pub open spec fn header_value_ok(s: Seq<char>) -> bool {
    forall|i: int| 0 <= i < s.len() ==> s[i] == '\t' || (s[i] as u32 >= 32 && s[i] as u32 != 127)
}

/// The most distinct names a header map is given. `HeaderMap` grows its table
/// to at most 32768 slots and panics past that; under hash collisions it
/// doubles the table only while names fill at least a fifth of it, so with
/// fewer names than this it rebuilds in place instead of growing past the limit.
pub const MAX_HEADER_NAMES: usize = 4096;

/// Relies on `http::HeaderMap::new`: an empty map.
#[verifier::external_body]
fn map_new() -> (r: http::HeaderMap)
    ensures
        header_contents(r) == no_headers().entries,
        header_keys(r) == no_headers().names,
        header_order(r) == no_headers().order,
{
    http::HeaderMap::new()
}

/// Relies on `http::HeaderMap::clone`: a map with the same entries.
#[verifier::external_body]
fn map_clone(m: &http::HeaderMap) -> (r: http::HeaderMap)
    ensures
        header_contents(r) == header_contents(*m),
        header_keys(r) == header_keys(*m),
        header_order(r) == header_order(*m),
{
    m.clone()
}

/// Relies on `http::HeaderMap::keys_len`: the number of distinct names.
#[verifier::external_body]
fn map_keys_len(m: &http::HeaderMap) -> (r: usize)
    ensures
        r == header_keys(*m),
{
    m.keys_len()
}

/// Relies on `http::HeaderMap::keys`: each name once, in the order of the
/// entries; every name is in normalised form and holds a value.
#[verifier::external_body]
fn map_keys(m: &http::HeaderMap) -> (r: Vec<String>)
    ensures
        r@.len() == header_order(*m).len(),
        forall|i: int| 0 <= i < r@.len() ==> #[trigger] r@[i]@ == header_order(*m)[i] && header_key(r@[i]@) == Some(r@[i]@)
            && header_contents(*m).contains_key(r@[i]@),
{
    m.keys().map(|k| String::from(k.as_str())).collect()
}

/// Relies on `http::HeaderMap::get` with a `&str` name, which normalises the
/// name as `HeaderName::from_bytes` does and yields the first value.
#[verifier::external_body]
fn map_get(m: &http::HeaderMap, key: &str) -> (r: Option<String>)
    ensures
        r matches Some(v) ==> header_key(key@) matches Some(k) && header_contents(*m).contains_key(k)
            && header_contents(*m)[k] == v@,
        r is None ==> (header_key(key@) matches Some(k) ==> !header_contents(*m).contains_key(k)),
{
    match m.get(key) {
        Some(v) => Some(String::from_utf8_lossy(v.as_bytes()).into_owned()),
        None => None,
    }
}

/// Relies on `http::HeaderMap::insert`, with the name made by
/// `HeaderName::from_bytes` (which normalises it to lower case) and the value by
/// `HeaderValue::from_str`: either conversion may refuse its text; otherwise
/// the name's values are replaced by the one given and the first old value is
/// returned.
#[verifier::external_body]
fn map_insert(m: &mut http::HeaderMap, key: &str, value: &str) -> (r: Option<Option<String>>)
    requires
        header_keys(*old(m)) < MAX_HEADER_NAMES,
    ensures
        match (header_key(key@), header_value_ok(value@)) {
            (Some(k), true) => r matches Some(prev) && header_contents(*final(m)) == header_contents(*old(m)).insert(k, value@)
                && header_keys(*final(m)) == header_keys(*old(m)) + if header_contents(*old(m)).contains_key(k) { 0nat } else { 1nat }
                && header_order(*final(m)) == if header_contents(*old(m)).contains_key(k) { header_order(*old(m)) } else { header_order(*old(m)).push(k) }
                && match prev {
                    Some(p) => header_contents(*old(m)).contains_key(k) && header_contents(*old(m))[k] == p@,
                    None => !header_contents(*old(m)).contains_key(k),
                },
            _ => r is None && *final(m) == *old(m),
        },
{
    let name = match http::header::HeaderName::from_bytes(key.as_bytes()) {
        Ok(n) => n,
        Err(_) => return None,
    };
    let val = match http::header::HeaderValue::from_str(value) {
        Ok(v) => v,
        Err(_) => return None,
    };
    match m.insert(name, val) {
        Some(p) => Some(Some(String::from_utf8_lossy(p.as_bytes()).into_owned())),
        None => Some(None),
    }
}

/// A header collection as plain values: the entries, and how many distinct names it holds.
pub ghost struct HeadersView {
    pub entries: Map<Seq<char>, Seq<char>>,
    pub names: nat,
    pub order: Seq<Seq<char>>,
}

/// The headers after setting `name` to `value`, or none where the name or value
/// is refused or the collection already holds the most names it is given.
pub open spec fn inserted(h: HeadersView, name: Seq<char>, value: Seq<char>) -> Option<HeadersView> {
    if h.names >= MAX_HEADER_NAMES {
        None
    } else {
        match header_key(name) {
            Some(k) => if header_value_ok(value) {
                Some(
                    HeadersView {
                        entries: h.entries.insert(k, value),
                        names: h.names + if h.entries.contains_key(k) { 0nat } else { 1nat },
                        order: if h.entries.contains_key(k) { h.order } else { h.order.push(k) },
                    },
                )
            } else {
                None
            },
            None => None,
        }
    }
}

/// An empty header collection.
pub open spec fn no_headers() -> HeadersView {
    HeadersView { entries: Map::empty(), names: 0, order: seq![] }
}

/// The headers of a request or a response.
#[derive(Debug)]
pub struct Headers {
    map: http::HeaderMap,
}

impl View for Headers {
    type V = HeadersView;

    closed spec fn view(&self) -> HeadersView {
        HeadersView {
            entries: header_contents(self.map),
            names: header_keys(self.map),
            order: header_order(self.map),
        }
    }
}

impl Headers {
    pub fn new() -> (r: Headers)
        ensures
            r@ == no_headers(),
    {
        Headers { map: map_new() }
    }

    /// The value of `key`, matched without regard to case.
    pub fn get(&self, key: &str) -> (r: Option<String>)
        ensures
            r matches Some(v) ==> header_key(key@) matches Some(k) && self@.entries.contains_key(k)
                && self@.entries[k] == v@,
            r is None ==> (header_key(key@) matches Some(k) ==> !self@.entries.contains_key(k)),
    {
        map_get(&self.map, key)
    }

    /// Sets `key` to `value`, replacing what it held, and hands back its old value.
    /// Fails with `None`, leaving the headers unchanged, where the name or value is
    /// refused or the headers already hold the most names they are given.
    pub fn insert(&mut self, key: &str, value: &str) -> (r: Option<Option<String>>)
        ensures
            match inserted(old(self)@, key@, value@) {
                Some(h) => r matches Some(prev) && final(self)@ == h && match prev {
                    Some(p) => header_key(key@) matches Some(k) && old(self)@.entries.contains_key(k)
                        && old(self)@.entries[k] == p@,
                    None => header_key(key@) matches Some(k) && !old(self)@.entries.contains_key(k),
                },
                None => r is None && final(self)@ == old(self)@,
            },
    {
        if map_keys_len(&self.map) >= MAX_HEADER_NAMES {
            return None;
        }
        map_insert(&mut self.map, key, value)
    }

    /// The number of distinct names held.
    pub fn len(&self) -> (r: usize)
        ensures
            r == self@.names,
    {
        map_keys_len(&self.map)
    }

    /// Every name with its value, in the order the names were first set.
    pub fn pairs(&self) -> (r: Vec<(String, String)>)
        ensures
            r@.len() == self@.order.len(),
            forall|i: int| 0 <= i < r@.len() ==> (#[trigger] r@[i]).0@ == self@.order[i]
                && self@.entries.contains_key(self@.order[i]) && r@[i].1@ == self@.entries[self@.order[i]],
    {
        let keys = map_keys(&self.map);
        let mut out: Vec<(String, String)> = Vec::new();
        let mut i: usize = 0;
        while i < keys.len()
            invariant
                i <= keys@.len(),
                keys@.len() == self@.order.len(),
                out@.len() == i,
                forall|j: int| 0 <= j < keys@.len() ==> #[trigger] keys@[j]@ == self@.order[j]
                    && header_key(keys@[j]@) == Some(keys@[j]@) && self@.entries.contains_key(keys@[j]@),
                forall|j: int| 0 <= j < i ==> (#[trigger] out@[j]).0@ == self@.order[j]
                    && self@.entries.contains_key(self@.order[j]) && out@[j].1@ == self@.entries[self@.order[j]],
            decreases keys@.len() - i,
        {
            assert(keys@[i as int]@ == self@.order[i as int]);
            match map_get(&self.map, keys[i].as_str()) {
                Some(v) => {
                    out.push((keys[i].clone(), v));
                },
                None => {
                    assert(false);
                },
            }
            i = i + 1;
        }
        out
    }

    /// The underlying `http::HeaderMap`.
    pub fn header_map(&self) -> (r: &http::HeaderMap)
        ensures
            header_contents(*r) == self@.entries,
            header_keys(*r) == self@.names,
            header_order(*r) == self@.order,
    {
        &self.map
    }

    /// A second collection holding the same headers.
    pub fn duplicate(&self) -> (r: Headers)
        ensures
            r@ == self@,
    {
        Headers { map: map_clone(&self.map) }
    }
}

} // verus!
