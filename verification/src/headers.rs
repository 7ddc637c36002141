//! HTTP request headers for the RPC client: the `key:value` arguments that
//! name them and the `http` header map that carries them.

use std::str::FromStr;
use vstd::prelude::*;

use crate::text::chars_of;

verus! {

broadcast use vstd::string::group_string_axioms;

/// A character that may stand in an HTTP header name (an RFC 7230 `tchar`).
pub open spec fn is_token_char(c: char) -> bool {
    let u = c as u32;
    ||| 48 <= u <= 57
    ||| 65 <= u <= 90
    ||| 97 <= u <= 122
    ||| c == '!' || c == '#' || c == '$' || c == '%' || c == '&' || c == '\'' || c == '*'
    ||| c == '+' || c == '-' || c == '.' || c == '^' || c == '_' || c == '`' || c == '|'
    ||| c == '~'
}

/// The longest header name, in bytes, that `http` accepts.
pub const MAX_HEADER_NAME_LEN: usize = 65535;

/// `http::HeaderName::from_str` accepts `s`: a non-empty token of at most
/// `MAX_HEADER_NAME_LEN` characters (all of them ASCII, so as many bytes).
pub open spec fn valid_header_name(s: Seq<char>) -> bool {
    &&& 1 <= s.len() <= MAX_HEADER_NAME_LEN
    &&& forall|i: int| 0 <= i < s.len() ==> is_token_char(#[trigger] s[i])
}

/// A character whose UTF-8 bytes `http::HeaderValue::from_str` accepts: visible
/// ASCII, space, tab, or any non-ASCII character.
pub open spec fn is_value_char(c: char) -> bool {
    let u = c as u32;
    (u >= 32 && u != 127) || u == 9
}

/// `http::HeaderValue::from_str` accepts `s`.
pub open spec fn valid_header_value(s: Seq<char>) -> bool {
    forall|i: int| 0 <= i < s.len() ==> is_value_char(#[trigger] s[i])
}

/// ASCII lower case of `c`.
pub open spec fn lower_char(c: char) -> char {
    let u = c as u32;
    if 65 <= u <= 90 {
        (u + 32) as char
    } else {
        c
    }
}

/// The normalized form that `http` stores a valid header name in: lower case.
pub open spec fn lower(s: Seq<char>) -> Seq<char> {
    s.map_values(|c: char| lower_char(c))
}

/// Lower-casing keeps the length, turns each ASCII capital letter into its
/// small letter (32 code points up), leaves every other character as it is,
/// leaves no ASCII capital letter behind, and changes nothing a second time.
pub proof fn lemma_lower(s: Seq<char>)
    ensures
        lower(s).len() == s.len(),
        forall|i: int| 0 <= i < s.len() && 65 <= s[i] as u32 <= 90 ==> #[trigger] lower(s)[i] as u32
            == s[i] as u32 + 32,
        forall|i: int| 0 <= i < s.len() && !(65 <= s[i] as u32 <= 90) ==> #[trigger] lower(s)[i] == s[i],
        forall|i: int| 0 <= i < s.len() ==> !(65 <= #[trigger] lower(s)[i] as u32 <= 90),
        lower(lower(s)) == lower(s),
{
    assert(lower(lower(s)) =~= lower(s));
}

#[verifier::external_type_specification]
#[verifier::external_body]
#[verifier::reject_recursive_types(T)]
pub struct ExHeaderMap<T>(http::HeaderMap<T>);

#[verifier::external_type_specification]
#[verifier::external_body]
pub struct ExHeaderValue(http::HeaderValue);

/// For each header name, the values held under it, in order.
pub type HeaderValues = Map<Seq<char>, Seq<Seq<char>>>;

/// What an `http::HeaderMap` holds: for each name, in the lower case the map
/// stores it in, the values appended under it, in the order they were appended.
pub uninterp spec fn header_values(map: http::HeaderMap) -> HeaderValues;

/// `m` with `value` appended after the values already held under `name`.
pub open spec fn append_value(
    m: HeaderValues,
    name: Seq<char>,
    value: Seq<char>,
) -> HeaderValues {
    if m.contains_key(name) {
        m.insert(name, m[name].push(value))
    } else {
        m.insert(name, seq![value])
    }
}

/// The most distinct names a map may hold before an `append`: up to it,
/// `http::HeaderMap::append` never has to grow the map beyond `http`'s
/// `MAX_SIZE` (32768 slots), which would panic.
pub const MAX_HEADERS: usize = 6553;

/// Calls `http::HeaderMap::new`, which makes a map that holds nothing.
#[verifier::external_body]
pub(crate) fn empty_header_map() -> (fresh: http::HeaderMap)
    ensures
        header_values(fresh) == HeaderValues::empty(),
{
    http::HeaderMap::new()
}

/// Calls `http::HeaderMap::clone`, which copies every name with its values in order.
#[verifier::external_body]
pub(crate) fn clone_header_map(map: &http::HeaderMap) -> (c: http::HeaderMap)
    ensures
        header_values(c) == header_values(*map),
{
    map.clone()
}

/// Parses `name` with `http::HeaderName::from_str` and `value` with
/// `http::HeaderValue::from_str`, and appends the pair with
/// `http::HeaderMap::append`. The name is refused first, then the value, and a
/// refused pair leaves the map as it was; the name is stored in lower case, the
/// value as given, after the values already held under that name. The map holds
/// at most `MAX_HEADERS` distinct names, so `append` does not panic.
#[verifier::external_body]
fn try_append_header(map: &mut http::HeaderMap, name: &str, value: &str) -> (res: Result<(), HeaderError>)
    requires
        header_values(*old(map)).dom().len() <= MAX_HEADERS,
    ensures
        res == (match pair_error(name@, value@) {
            Some(e) => Err(e),
            None => Ok(()),
        }),
        res is Err ==> header_values(*final(map)) == header_values(*old(map)),
        res is Ok ==> header_values(*final(map)) == append_value(header_values(*old(map)), lower(name@), value@),
{
    let name = match http::HeaderName::from_str(name) {
        Ok(name) => name,
        Err(_) => return Err(HeaderError::InvalidName),
    };
    let value = match http::HeaderValue::from_str(value) {
        Ok(value) => value,
        Err(_) => return Err(HeaderError::InvalidValue),
    };
    map.append(name, value);
    Ok(())
}

/// Why a list of headers was refused.
#[derive(Debug, Clone, Copy, PartialEq, Eq, Structural)]
pub enum HeaderError {
    /// A name that `http::HeaderName::from_str` refuses.
    InvalidName,
    /// A value that `http::HeaderValue::from_str` refuses.
    InvalidValue,
}

impl HeaderError {
    /// The text of the matching `http` error.
    pub fn message(&self) -> (s: &'static str)
        ensures
            s@ == header_error_message(*self),
            *self == HeaderError::InvalidName ==> s@ == "invalid HTTP header name"@,
            *self == HeaderError::InvalidValue ==> s@ == "failed to parse header value"@,
    {
        match self {
            HeaderError::InvalidName => "invalid HTTP header name",
            HeaderError::InvalidValue => "failed to parse header value",
        }
    }
}

/// The text of each error, as `http` displays it.
pub open spec fn header_error_message(e: HeaderError) -> Seq<char> {
    match e {
        HeaderError::InvalidName => "invalid HTTP header name"@,
        HeaderError::InvalidValue => "failed to parse header value"@,
    }
}

/// The check of one (name, value) pair: the name is checked first.
pub open spec fn pair_error(name: Seq<char>, value: Seq<char>) -> Option<HeaderError> {
    if !valid_header_name(name) {
        Some(HeaderError::InvalidName)
    } else if !valid_header_value(value) {
        Some(HeaderError::InvalidValue)
    } else {
        None
    }
}

/// The views of a list of (name, value) strings.
pub open spec fn pairs_view(hs: Seq<(String, String)>) -> Seq<(Seq<char>, Seq<char>)> {
    hs.map_values(|p: (String, String)| (p.0@, p.1@))
}

/// Every pair of `hs` is a valid header.
pub open spec fn all_headers_valid(hs: Seq<(Seq<char>, Seq<char>)>) -> bool {
    forall|i: int| 0 <= i < hs.len() ==> (#[trigger] pair_error(hs[i].0, hs[i].1)) is None
}

/// `e` is the error of the first pair of `hs` that is not a valid header.
pub open spec fn first_header_error(hs: Seq<(Seq<char>, Seq<char>)>, e: HeaderError) -> bool {
    exists|k: int|
        0 <= k < hs.len() && all_headers_valid(hs.take(k)) && #[trigger] pair_error(hs[k].0, hs[k].1)
            == Some(e)
}

/// What a map built by appending the valid pairs `hs` in order holds.
pub open spec fn header_map_of(hs: Seq<(Seq<char>, Seq<char>)>) -> HeaderValues
    decreases hs.len(),
{
    if hs.len() == 0 {
        Map::empty()
    } else {
        append_value(header_map_of(hs.drop_last()), lower(hs.last().0), hs.last().1)
    }
}

/// The values of the pairs of `hs` whose name, in lower case, is `name`, in
/// the order of `hs`.
pub open spec fn values_named(hs: Seq<(Seq<char>, Seq<char>)>, name: Seq<char>) -> Seq<Seq<char>> {
    hs.filter_map(
        |p: (Seq<char>, Seq<char>)|
            if lower(p.0) == name {
                Some(p.1)
            } else {
                None
            },
    )
}

/// Every pair lands in the map built from a list of pairs: a name is held
/// exactly when some pair carries it (in lower case), and the values under
/// it are those of the pairs with that name, all of them, in their order.
pub proof fn lemma_header_map_holds_every_pair(hs: Seq<(Seq<char>, Seq<char>)>, name: Seq<char>)
    ensures
        header_map_of(hs).contains_key(name) <==> exists|i: int|
            0 <= i < hs.len() && lower(#[trigger] hs[i].0) == name,
        header_map_of(hs).contains_key(name) ==> header_map_of(hs)[name] == values_named(hs, name),
        !header_map_of(hs).contains_key(name) ==> values_named(hs, name).len() == 0,
    decreases hs.len(),
{
    if hs.len() > 0 {
        let rest = hs.drop_last();
        lemma_header_map_holds_every_pair(rest, name);
        if lower(hs.last().0) == name {
            assert(lower(hs[hs.len() - 1].0) == name);
            if header_map_of(rest).contains_key(name) {
                assert(header_map_of(hs)[name] =~= values_named(hs, name));
            } else {
                assert(values_named(rest, name) =~= Seq::<Seq<char>>::empty());
                assert(header_map_of(hs)[name] =~= values_named(hs, name));
            }
        } else {
            assert((exists|i: int| 0 <= i < hs.len() && lower(#[trigger] hs[i].0) == name) ==> exists|i: int|
                0 <= i < rest.len() && lower(#[trigger] rest[i].0) == name) by {
                if exists|i: int| 0 <= i < hs.len() && lower(#[trigger] hs[i].0) == name {
                    let i = choose|i: int| 0 <= i < hs.len() && lower(#[trigger] hs[i].0) == name;
                    assert(lower(rest[i].0) == name);
                }
            }
            assert((exists|i: int| 0 <= i < rest.len() && lower(#[trigger] rest[i].0) == name) ==> exists|i: int|
                0 <= i < hs.len() && lower(#[trigger] hs[i].0) == name) by {
                if exists|i: int| 0 <= i < rest.len() && lower(#[trigger] rest[i].0) == name {
                    let i = choose|i: int| 0 <= i < rest.len() && lower(#[trigger] rest[i].0) == name;
                    assert(lower(hs[i].0) == name);
                }
            }
        }
    }
}

/// Adding a pair at the end of the list adds its value, under its name in
/// lower case, after the values already held under that name, and leaves
/// every other name as it was. In particular a single pair gives a map that
/// holds its value alone under its lower-cased name.
pub proof fn lemma_header_map_push(hs: Seq<(Seq<char>, Seq<char>)>, name: Seq<char>, value: Seq<char>)
    ensures
        header_map_of(hs.push((name, value))) == append_value(header_map_of(hs), lower(name), value),
        header_map_of(hs.push((name, value))).contains_key(lower(name)),
        header_map_of(hs.push((name, value)))[lower(name)] == values_named(hs, lower(name)).push(value),
        forall|k: Seq<char>| k != lower(name) ==> {
            &&& (#[trigger] header_map_of(hs.push((name, value))).contains_key(k)
                <==> header_map_of(hs).contains_key(k))
            &&& header_map_of(hs.push((name, value)))[k] == header_map_of(hs)[k]
        },
        header_map_of(seq![(name, value)]) == map![lower(name) => seq![value]],
{
    let hs2 = hs.push((name, value));
    assert(hs2.drop_last() =~= hs);
    lemma_header_map_holds_every_pair(hs, lower(name));
    if !header_map_of(hs).contains_key(lower(name)) {
        assert(values_named(hs, lower(name)) =~= Seq::<Seq<char>>::empty());
    }
    let one = seq![(name, value)];
    assert(one.drop_last() =~= Seq::<(Seq<char>, Seq<char>)>::empty());
    assert(header_map_of(one.drop_last()) == HeaderValues::empty());
    assert(!HeaderValues::empty().contains_key(lower(name)));
    assert(header_map_of(one) =~= map![lower(name) => seq![value]]);
}

/// The number of distinct names, in lower case, among the pairs `hs`.
pub open spec fn distinct_names(hs: Seq<(Seq<char>, Seq<char>)>) -> nat {
    header_map_of(hs).dom().len()
}

/// A map built from pairs holds finitely many names, and those of a prefix
/// are among those of the whole list.
pub proof fn lemma_names_of_prefix(hs: Seq<(Seq<char>, Seq<char>)>, i: int)
    requires
        0 <= i <= hs.len(),
    ensures
        header_map_of(hs).dom().finite(),
        header_map_of(hs.take(i)).dom().subset_of(header_map_of(hs).dom()),
        distinct_names(hs.take(i)) <= distinct_names(hs),
    decreases hs.len(),
{
    if hs.len() == 0 {
        assert(hs.take(i) =~= hs);
    } else {
        lemma_names_of_prefix(hs.drop_last(), if i < hs.len() { i } else { hs.len() - 1 });
        if i == hs.len() {
            assert(hs.take(i) =~= hs);
        } else {
            assert(hs.take(i) =~= hs.drop_last().take(i));
        }
        vstd::set_lib::lemma_len_subset(header_map_of(hs.take(i)).dom(), header_map_of(hs).dom());
    }
}

/// Builds the header map of `headers`, as `collect` into an `http::HeaderMap`
/// does with the parsed pairs: it fails on the first pair whose name, or
/// else whose value, `http` refuses.
pub fn header_map_from_pairs(headers: &Vec<(String, String)>) -> (res: Result<http::HeaderMap, HeaderError>)
    requires
        distinct_names(pairs_view(headers@)) <= MAX_HEADERS,
    ensures
        match res {
            Ok(map) => all_headers_valid(pairs_view(headers@)) && header_values(map)
                == header_map_of(pairs_view(headers@)),
            Err(e) => first_header_error(pairs_view(headers@), e),
        },
{
    let ghost hs = pairs_view(headers@);
    let mut map = empty_header_map();
    let mut i: usize = 0;
    while i < headers.len()
        invariant
            i <= headers@.len(),
            hs == pairs_view(headers@),
            distinct_names(hs) <= MAX_HEADERS,
            all_headers_valid(hs.take(i as int)),
            header_values(map) == header_map_of(hs.take(i as int)),
        decreases headers@.len() - i,
    {
        proof {
            lemma_names_of_prefix(hs, i as int);
        }
        let name = headers[i].0.as_str();
        let value = headers[i].1.as_str();
        assert(hs[i as int] == (name@, value@));
        match try_append_header(&mut map, name, value) {
            Ok(()) => {},
            Err(e) => {
                assert(pair_error(hs[i as int].0, hs[i as int].1) == Some(e));
                return Err(e);
            },
        }
        assert(hs.take(i + 1).drop_last() =~= hs.take(i as int));
        i = i + 1;
    }
    assert(hs.take(i as int) =~= hs);
    Ok(map)
}

/// `k` is the position of the first `:` of `s`.
pub open spec fn first_colon_at(s: Seq<char>, k: int) -> bool {
    &&& 0 <= k < s.len()
    &&& s[k] == ':'
    &&& forall|j: int| 0 <= j < k ==> s[j] != ':'
}

/// The position of the first `:` of `s`, where `s` holds one.
pub open spec fn first_colon(s: Seq<char>) -> int {
    choose|k: int| first_colon_at(s, k)
}

/// What `split_once(':')` makes of an argument `s` that holds a `:`: the text
/// before its first `:` and the text after it.
pub open spec fn split_arg(s: Seq<char>) -> (Seq<char>, Seq<char>) {
    (s.take(first_colon(s)), s.skip(first_colon(s) + 1))
}

/// The (key, value) pairs of arguments that all hold a `:`.
pub open spec fn split_args(args: Seq<String>) -> Seq<(Seq<char>, Seq<char>)> {
    args.map_values(|a: String| split_arg(a@))
}

/// `k` is the only position of a first `:` in `s`.
pub proof fn lemma_first_colon(s: Seq<char>, k: int)
    requires
        first_colon_at(s, k),
    ensures
        first_colon(s) == k,
{
    assert(first_colon_at(s, first_colon(s)));
}

proof fn lemma_colon_has_first(s: Seq<char>, k: int)
    requires
        0 <= k < s.len(),
        s[k] == ':',
    ensures
        exists|j: int| first_colon_at(s, j),
    decreases k,
{
    if exists|i: int| 0 <= i < k && s[i] == ':' {
        let i = choose|i: int| 0 <= i < k && s[i] == ':';
        lemma_colon_has_first(s, i);
    } else {
        assert(first_colon_at(s, k));
    }
}

/// An argument that holds a `:` is its key, the `:`, and its value, in that
/// order, and the key holds no `:`: the split is made at the first `:`, and
/// any later `:` stays in the value.
pub proof fn lemma_split_arg(s: Seq<char>)
    requires
        s.contains(':'),
    ensures
        split_arg(s).0 + seq![':'] + split_arg(s).1 == s,
        !split_arg(s).0.contains(':'),
{
    let k = choose|k: int| 0 <= k < s.len() && s[k] == ':';
    lemma_colon_has_first(s, k);
    let c = first_colon(s);
    assert(first_colon_at(s, c));
    assert(split_arg(s).0 + seq![':'] + split_arg(s).1 =~= s);
    if split_arg(s).0.contains(':') {
        let i = choose|i: int| 0 <= i < split_arg(s).0.len() && split_arg(s).0[i] == ':';
        assert(s[i] == ':');
    }
}

/// The error for a header argument without a `:`.
pub open spec fn header_arg_message(arg: Seq<char>) -> Seq<char> {
    "invalid header format: '"@ + arg + "'. expected 'key:value'"@
}

/// Splits a `key:value` header argument at its first `:`.
pub fn parse_header_arg(arg: &str) -> (res: Result<(String, String), String>)
    ensures
        match res {
            Ok((key, value)) => arg@.contains(':') && (key@, value@) == split_arg(arg@),
            Err(msg) => {
                &&& !arg@.contains(':')
                &&& msg@ == header_arg_message(arg@)
                &&& msg@ == "invalid header format: '"@ + arg@ + "'. expected 'key:value'"@
            },
        },
{
    let cs = chars_of(arg);
    let mut i: usize = 0;
    while i < cs.len()
        invariant
            i <= cs@.len(),
            cs@ == arg@,
            forall|j: int| 0 <= j < i ==> cs@[j] != ':',
        decreases cs@.len() - i,
    {
        if cs[i] == ':' {
            let key = arg.substring_char(0, i).to_owned();
            let value = arg.substring_char(i + 1, cs.len()).to_owned();
            proof {
                lemma_first_colon(arg@, i as int);
            }
            return Ok((key, value));
        }
        i = i + 1;
    }
    let mut msg = String::new();
    msg.append("invalid header format: '");
    msg.append(arg);
    msg.append("'. expected 'key:value'");
    Err(msg)
}

/// Every argument holds a `:`.
pub open spec fn all_have_colon(args: Seq<String>) -> bool {
    forall|i: int| 0 <= i < args.len() ==> (#[trigger] args[i]@).contains(':')
}

/// `msg` is the error for the first argument of `args` without a `:`.
pub open spec fn first_arg_without_colon(args: Seq<String>, msg: Seq<char>) -> bool {
    exists|k: int|
        0 <= k < args.len() && all_have_colon(args.take(k)) && !(#[trigger] args[k]@).contains(':')
            && msg == header_arg_message(args[k]@)
}

/// Splits every `key:value` argument, failing on the first one without a `:`.
pub fn parse_header_args(args: &Vec<String>) -> (res: Result<Vec<(String, String)>, String>)
    ensures
        match res {
            Ok(pairs) => {
                &&& all_have_colon(args@)
                &&& pairs_view(pairs@) == split_args(args@)
            },
            Err(msg) => first_arg_without_colon(args@, msg@),
        },
{
    let mut pairs: Vec<(String, String)> = Vec::new();
    let mut i: usize = 0;
    while i < args.len()
        invariant
            i <= args@.len(),
            pairs@.len() == i,
            forall|j: int| 0 <= j < i ==> (#[trigger] args@[j]@).contains(':'),
            pairs_view(pairs@) == split_args(args@.take(i as int)),
        decreases args@.len() - i,
    {
        match parse_header_arg(args[i].as_str()) {
            Ok(pair) => {
                pairs.push(pair);
                assert(split_args(args@.take(i + 1)) =~= split_args(args@.take(i as int)).push(
                    split_arg(args@[i as int]@),
                ));
            },
            Err(msg) => {
                return Err(msg);
            },
        }
        i = i + 1;
    }
    Ok(pairs)
}

} // verus!
