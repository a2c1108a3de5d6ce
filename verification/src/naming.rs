//! Tool-name qualification, its inverse, resource URIs and tool filters.

use std::hash::{Hash, Hasher};
use vstd::prelude::*;

use crate::model::{ToolFilter, ToolFilterView};
use crate::text::{
    ascii_lower, chars_of, hex_digit, hex_digits, hex_lower, is_ascii_alnum, str_eq, string_from_chars,
    string_from_range,
};

verus! {

/// Longest qualified name that is kept as it is.
pub const MAX_QUALIFIED_LEN: usize = 64;

/// How much of an overlong qualified name survives before the hash suffix.
pub const KEPT_PREFIX_LEN: usize = 48;

/// How many hexadecimal digits of the hash end a shortened name.
pub const HASH_SUFFIX_LEN: usize = 12;

/// One char of a name component: ASCII letters, digits and `_` kept (letters lower-cased),
/// everything else turned into `_`.
pub open spec fn sanitize_char(c: char) -> char {
    if is_ascii_alnum(c) || c == '_' {
        ascii_lower(c)
    } else {
        '_'
    }
}

/// A name component with every char sanitized.
pub open spec fn sanitized(s: Seq<char>) -> Seq<char> {
    s.map_values(|c: char| sanitize_char(c))
}

/// The chars that can occur in a qualified name.
pub open spec fn is_name_char(c: char) -> bool {
    ||| ('a' as u32) <= (c as u32) <= ('z' as u32)
    ||| ('0' as u32) <= (c as u32) <= ('9' as u32)
    ||| c == '_'
}

/// `mcp__`, the start of every qualified tool name.
pub open spec fn qualified_prefix() -> Seq<char> {
    seq!['m', 'c', 'p', '_', '_']
}

/// `mcp://`, the start of every server resource URI.
pub open spec fn uri_prefix() -> Seq<char> {
    seq!['m', 'c', 'p', ':', '/', '/']
}

/// Whether `s` starts with `p`.
pub open spec fn has_prefix(s: Seq<char>, p: Seq<char>) -> bool {
    p.len() <= s.len() && s.take(p.len() as int) == p
}

/// `mcp__<server>__<tool>` with both components sanitized.
pub open spec fn base_qualified_name(server: Seq<char>, tool: Seq<char>) -> Seq<char> {
    qualified_prefix() + sanitized(server) + seq!['_', '_'] + sanitized(tool)
}

/// What `DefaultHasher::new()` finishes with after hashing a string with these chars.
pub uninterp spec fn default_hash(text: Seq<char>) -> u64;

/// A hash whose hexadecimal rendering has at least the digits that a shortened name keeps.
pub open spec fn hash_text_long_enough(hash: u64) -> bool {
    hex_digits(hash as nat).len() >= HASH_SUFFIX_LEN
}

/// The first kept chars of `name`, `_`, then the first hexadecimal digits of `hash`.
pub open spec fn shortened_name(name: Seq<char>, hash: u64) -> Seq<char> {
    name.take(KEPT_PREFIX_LEN as int).push('_') + hex_digits(hash as nat).take(
        HASH_SUFFIX_LEN as int,
    )
}

/// The qualified name of `tool` on `server`: the base name, shortened with its hash when it
/// is longer than the limit.
pub open spec fn qualified_tool_name(server: Seq<char>, tool: Seq<char>) -> Seq<char> {
    let base = base_qualified_name(server, tool);
    if base.len() > MAX_QUALIFIED_LEN {
        shortened_name(base, default_hash(base))
    } else {
        base
    }
}

/// Qualifying needs no hash, or the hash renders to enough digits.
pub open spec fn qualify_hash_ok(server: Seq<char>, tool: Seq<char>) -> bool {
    let base = base_qualified_name(server, tool);
    base.len() <= MAX_QUALIFIED_LEN || hash_text_long_enough(default_hash(base))
}

/// A `__` starts at position `i` of `s`.
pub open spec fn sep_at(s: Seq<char>, i: int) -> bool {
    0 <= i && i + 1 < s.len() && s[i] == '_' && s[i + 1] == '_'
}

/// The first position at or after `i` where a `__` starts.
pub open spec fn first_sep_from(s: Seq<char>, i: int) -> Option<int>
    decreases s.len() - i,
{
    if i < 0 || i + 1 >= s.len() {
        None
    } else if sep_at(s, i) {
        Some(i)
    } else {
        first_sep_from(s, i + 1)
    }
}

/// Why a qualified tool name could not be split.
#[derive(Debug, Clone, Copy, PartialEq, Eq, Structural)]
pub enum QualifiedNameError {
    MissingPrefix,
    MissingServer,
    MissingTool,
}

impl QualifiedNameError {
    /// The message that describes the error.
    pub fn message(&self) -> (r: String)
        ensures
            r@ == self.spec_message(),
    {
        match self {
            QualifiedNameError::MissingPrefix => String::from_str("missing mcp__ prefix"),
            QualifiedNameError::MissingServer => String::from_str("missing server segment"),
            QualifiedNameError::MissingTool => String::from_str("missing tool segment"),
        }
    }

    /// The message of each error.
    pub open spec fn spec_message(&self) -> Seq<char> {
        match self {
            QualifiedNameError::MissingPrefix => "missing mcp__ prefix"@,
            QualifiedNameError::MissingServer => "missing server segment"@,
            QualifiedNameError::MissingTool => "missing tool segment"@,
        }
    }
}

/// Splitting `mcp__<server>__<tool>` at the first `__` after the prefix; both parts must be
/// non-empty.
pub open spec fn parse_qualified(value: Seq<char>) -> Result<
    (Seq<char>, Seq<char>),
    QualifiedNameError,
> {
    if !has_prefix(value, qualified_prefix()) {
        Err(QualifiedNameError::MissingPrefix)
    } else {
        let rest = value.skip(5);
        match first_sep_from(rest, 0) {
            None => if rest.len() == 0 {
                Err(QualifiedNameError::MissingServer)
            } else {
                Err(QualifiedNameError::MissingTool)
            },
            Some(k) => if k == 0 {
                Err(QualifiedNameError::MissingServer)
            } else if k + 2 == rest.len() {
                Err(QualifiedNameError::MissingTool)
            } else {
                Ok((rest.take(k), rest.skip(k + 2)))
            },
        }
    }
}

/// The first position at or after `i` that holds `/`, or the length when there is none.
pub open spec fn first_slash_from(s: Seq<char>, i: int) -> int
    decreases s.len() - i,
{
    if i < 0 || i >= s.len() {
        s.len() as int
    } else if s[i] == '/' {
        i
    } else {
        first_slash_from(s, i + 1)
    }
}

/// The server named by an `mcp://<server>/...` URI, when it names one.
pub open spec fn server_from_uri(uri: Seq<char>) -> Option<Seq<char>> {
    if !has_prefix(uri, uri_prefix()) {
        None
    } else {
        let rest = uri.skip(6);
        let k = first_slash_from(rest, 0);
        if k == 0 {
            None
        } else {
            Some(rest.take(k))
        }
    }
}

/// A filter lets a tool through when no deny entry names it and the allow list is empty or
/// names it.
pub open spec fn filter_allows(filter: ToolFilterView, name: Seq<char>) -> bool {
    !filter.deny.contains(name) && (filter.allow.len() == 0 || filter.allow.contains(name))
}

fn sanitize_one(c: char) -> (r: char)
    ensures
        r == sanitize_char(c),
{
    let u = c as u32;
    if 65 <= u && u <= 90 {
        let b = (u + 32) as u8;
        let r = b as char;
        proof {
            vstd::utf8::char_u32_cast(r, r as u32);
        }
        r
    } else if (97 <= u && u <= 122) || (48 <= u && u <= 57) || c == '_' {
        proof {
            vstd::utf8::char_u32_cast('_', '_' as u32);
            if (c as u32) == ('_' as u32) {
                vstd::utf8::char_u32_cast(c, c as u32);
            }
        }
        c
    } else {
        proof {
            vstd::utf8::char_u32_cast('_', '_' as u32);
            vstd::utf8::char_u32_cast(c, c as u32);
        }
        '_'
    }
}

fn push_sanitized(out: &mut Vec<char>, value: &str)
    ensures
        final(out)@ == old(out)@ + sanitized(value@),
{
    let v = chars_of(value);
    let n = v.len();
    let ghost start = out@;
    let mut i: usize = 0;
    while i < n
        invariant
            i <= n,
            n == v@.len(),
            v@ == value@,
            out@ == start + sanitized(v@.take(i as int)),
        decreases n - i,
    {
        out.push(sanitize_one(v[i]));
        proof {
            assert(sanitized(v@.take(i + 1)) =~= sanitized(v@.take(i as int)).push(
                sanitize_char(v@[i as int]),
            ));
        }
        i = i + 1;
    }
    proof {
        assert(v@.take(n as int) =~= v@);
    }
}

/// Makes a name component safe for a qualified name: ASCII letters, digits and `_` are kept
/// (letters lower-cased) and every other char becomes `_`.
pub fn sanitize_component(value: &str) -> (r: String)
    ensures
        r@ == sanitized(value@),
{
    let mut out: Vec<char> = Vec::new();
    push_sanitized(&mut out, value);
    proof {
        assert(out@ =~= sanitized(value@));
    }
    string_from_chars(&out)
}

fn push_prefix(out: &mut Vec<char>)
    ensures
        final(out)@ == old(out)@ + qualified_prefix(),
{
    let ghost start = out@;
    out.push('m');
    out.push('c');
    out.push('p');
    out.push('_');
    out.push('_');
    proof {
        assert(out@ =~= start + qualified_prefix());
    }
}

fn base_name_chars(server: &str, tool: &str) -> (r: Vec<char>)
    ensures
        r@ == base_qualified_name(server@, tool@),
{
    let mut out: Vec<char> = Vec::new();
    push_prefix(&mut out);
    push_sanitized(&mut out, server);
    out.push('_');
    out.push('_');
    push_sanitized(&mut out, tool);
    proof {
        assert(out@ =~= base_qualified_name(server@, tool@));
    }
    out
}

/// Hashes the chars of `text` with a fresh `DefaultHasher` (`Hash for str`, then `finish`).
/// The contract names the result and claims only that it depends on the text alone:
/// `DefaultHasher::new()` always starts from the same keys.
#[verifier::external_body]
fn default_hash_of(text: &str) -> (h: u64)
    ensures
        h == default_hash(text@),
{
    let mut hasher = std::collections::hash_map::DefaultHasher::new();
    text.hash(&mut hasher);
    hasher.finish()
}

/// Shortens an overlong qualified name: its first 48 chars, `_`, and the first 12
/// hexadecimal digits of its hash.
pub fn shorten_qualified_name(name: &str, hash: u64) -> (r: String)
    requires
        name@.len() >= KEPT_PREFIX_LEN,
        hash_text_long_enough(hash),
    ensures
        r@ == shortened_name(name@, hash),
{
    let v = chars_of(name);
    let mut out: Vec<char> = Vec::new();
    let mut i: usize = 0;
    while i < KEPT_PREFIX_LEN
        invariant
            i <= KEPT_PREFIX_LEN,
            KEPT_PREFIX_LEN <= v@.len(),
            v@ == name@,
            out@ == v@.take(i as int),
        decreases KEPT_PREFIX_LEN - i,
    {
        out.push(v[i]);
        proof {
            assert(v@.take(i as int).push(v@[i as int]) =~= v@.take(i + 1));
        }
        i = i + 1;
    }
    out.push('_');
    let hex = hex_lower(hash);
    let mut j: usize = 0;
    let ghost mid = out@;
    while j < HASH_SUFFIX_LEN
        invariant
            j <= HASH_SUFFIX_LEN,
            HASH_SUFFIX_LEN <= hex@.len(),
            hex@ == hex_digits(hash as nat),
            out@ == mid + hex@.take(j as int),
        decreases HASH_SUFFIX_LEN - j,
    {
        out.push(hex[j]);
        proof {
            assert(hex@.take(j as int).push(hex@[j as int]) =~= hex@.take(j + 1));
        }
        j = j + 1;
    }
    proof {
        assert(out@ =~= shortened_name(name@, hash));
    }
    string_from_chars(&out)
}

/// The manager-wide name of `tool` on `server`: `mcp__<server>__<tool>` with both parts
/// sanitized, shortened with a hash suffix when longer than 64 chars.
pub fn qualify_tool_name(server: &str, tool: &str) -> (r: String)
    requires
        qualify_hash_ok(server@, tool@),
    ensures
        r@ == qualified_tool_name(server@, tool@),
{
    let base = base_name_chars(server, tool);
    let name = string_from_chars(&base);
    if base.len() > MAX_QUALIFIED_LEN {
        let hash = default_hash_of(name.as_str());
        shorten_qualified_name(name.as_str(), hash)
    } else {
        name
    }
}

/// `qualify_tool_name` where it is defined; `None` for an overlong name whose hash renders
/// to fewer than 12 hexadecimal digits.
pub fn try_qualify_tool_name(server: &str, tool: &str) -> (r: Option<String>)
    ensures
        qualify_hash_ok(server@, tool@) ==> (r matches Some(q) && q@ == qualified_tool_name(
            server@,
            tool@,
        )),
        !qualify_hash_ok(server@, tool@) ==> r is None,
{
    let base = base_name_chars(server, tool);
    if base.len() > MAX_QUALIFIED_LEN {
        let name = string_from_chars(&base);
        let hash = default_hash_of(name.as_str());
        let hex = hex_lower(hash);
        if hex.len() < HASH_SUFFIX_LEN {
            return None;
        }
    }
    Some(qualify_tool_name(server, tool))
}

/// Whether `value` starts with `mcp__`, as every qualified tool name does.
pub fn has_qualified_prefix(value: &str) -> (r: bool)
    ensures
        r == has_prefix(value@, qualified_prefix()),
{
    let v = chars_of(value);
    let n = v.len();
    let r = n >= 5 && v[0] == 'm' && v[1] == 'c' && v[2] == 'p' && v[3] == '_' && v[4] == '_';
    proof {
        if r {
            assert(value@.take(5) =~= qualified_prefix());
        } else if has_prefix(value@, qualified_prefix()) {
            assert(value@.take(5)[0] == 'm');
            assert(value@.take(5)[1] == 'c');
            assert(value@.take(5)[2] == 'p');
            assert(value@.take(5)[3] == '_');
            assert(value@.take(5)[4] == '_');
        }
    }
    r
}

/// Splits `mcp__<server>__<tool>` into server and tool at the first `__` after the prefix.
pub fn parse_qualified_tool_name(value: &str) -> (r: Result<(String, String), QualifiedNameError>)
    ensures
        match r {
            Ok((server, tool)) => parse_qualified(value@) == Ok::<
                (Seq<char>, Seq<char>),
                QualifiedNameError,
            >((server@, tool@)),
            Err(e) => parse_qualified(value@) == Err::<(Seq<char>, Seq<char>), QualifiedNameError>(
                e,
            ),
        },
{
    let v = chars_of(value);
    let n = v.len();
    if n < 5 || v[0] != 'm' || v[1] != 'c' || v[2] != 'p' || v[3] != '_' || v[4] != '_' {
        proof {
            if has_prefix(value@, qualified_prefix()) {
                assert(value@.take(5)[0] == 'm');
                assert(value@.take(5)[1] == 'c');
                assert(value@.take(5)[2] == 'p');
                assert(value@.take(5)[3] == '_');
                assert(value@.take(5)[4] == '_');
            }
        }
        return Err(QualifiedNameError::MissingPrefix);
    }
    let ghost rest = v@.skip(5);
    proof {
        assert(value@.take(5) =~= qualified_prefix());
    }
    let mut i: usize = 5;
    while i < n - 1 && !(v[i] == '_' && v[i + 1] == '_')
        invariant
            5 <= i <= n,
            n == v@.len(),
            v@ == value@,
            rest == v@.skip(5),
            first_sep_from(rest, 0) == first_sep_from(rest, i - 5),
        decreases n - i,
    {
        proof {
            assert(!sep_at(rest, i - 5));
        }
        i = i + 1;
    }
    if i >= n - 1 {
        proof {
            assert(first_sep_from(rest, i - 5) is None);
        }
        if n == 5 {
            return Err(QualifiedNameError::MissingServer);
        }
        return Err(QualifiedNameError::MissingTool);
    }
    proof {
        assert(sep_at(rest, i - 5));
        assert(first_sep_from(rest, 0) == Some((i - 5) as int));
    }
    if i == 5 {
        return Err(QualifiedNameError::MissingServer);
    }
    if i + 2 == n {
        return Err(QualifiedNameError::MissingTool);
    }
    let server = string_from_range(&v, 5, i);
    let tool = string_from_range(&v, i + 2, n);
    proof {
        assert(server@ =~= rest.take(i - 5));
        assert(tool@ =~= rest.skip(i - 5 + 2));
    }
    Ok((server, tool))
}

/// The server of an `mcp://<server>/...` URI: the text between the scheme and the first `/`,
/// when it is not empty.
pub fn parse_server_from_uri(uri: &str) -> (r: Option<String>)
    ensures
        match r {
            Some(s) => server_from_uri(uri@) == Some(s@),
            None => server_from_uri(uri@) is None,
        },
{
    let v = chars_of(uri);
    let n = v.len();
    if n < 6 || v[0] != 'm' || v[1] != 'c' || v[2] != 'p' || v[3] != ':' || v[4] != '/' || v[5]
        != '/' {
        proof {
            if has_prefix(uri@, uri_prefix()) {
                assert(uri@.take(6)[0] == 'm');
                assert(uri@.take(6)[1] == 'c');
                assert(uri@.take(6)[2] == 'p');
                assert(uri@.take(6)[3] == ':');
                assert(uri@.take(6)[4] == '/');
                assert(uri@.take(6)[5] == '/');
            }
        }
        return None;
    }
    let ghost rest = v@.skip(6);
    proof {
        assert(uri@.take(6) =~= uri_prefix());
    }
    let mut i: usize = 6;
    while i < n && v[i] != '/'
        invariant
            6 <= i <= n,
            n == v@.len(),
            v@ == uri@,
            rest == v@.skip(6),
            first_slash_from(rest, 0) == first_slash_from(rest, i - 6),
        decreases n - i,
    {
        i = i + 1;
    }
    proof {
        assert(first_slash_from(rest, 0) == (i - 6) as int);
    }
    if i == 6 {
        return None;
    }
    let server = string_from_range(&v, 6, i);
    proof {
        assert(server@ =~= rest.take(i - 6));
    }
    Some(server)
}

fn list_contains(list: &Vec<String>, name: &str) -> (r: bool)
    ensures
        r == list.deep_view().contains(name@),
{
    let n = list.len();
    let mut i: usize = 0;
    while i < n
        invariant
            i <= n,
            n == list@.len(),
            forall|j: int| 0 <= j < i ==> list.deep_view()[j] != name@,
        decreases n - i,
    {
        if str_eq(list[i].as_str(), name) {
            proof {
                assert(list.deep_view()[i as int] == name@);
            }
            return true;
        }
        i = i + 1;
    }
    false
}

/// Whether `filter` lets the tool `name` through: never when a deny entry names it,
/// otherwise when the allow list is empty or names it.
pub fn allowed_by_filter(name: &str, filter: &ToolFilter) -> (r: bool)
    ensures
        r == filter_allows(filter@, name@),
{
    if list_contains(&filter.deny, name) {
        return false;
    }
    if filter.allow.len() == 0 {
        return true;
    }
    list_contains(&filter.allow, name)
}

/// If no `__` starts in `[i, k)` and one starts at `k`, the first one at or after `i` is at `k`.
proof fn lemma_first_sep_at(s: Seq<char>, i: int, k: int)
    requires
        0 <= i <= k,
        sep_at(s, k),
        forall|j: int| i <= j < k ==> !sep_at(s, j),
    ensures
        first_sep_from(s, i) == Some(k),
    decreases k - i,
{
    if i < k {
        lemma_first_sep_at(s, i + 1, k);
    }
}

/// A qualified name splits back into the sanitized server and tool names, whenever the
/// sanitized server name is not empty, holds no `__`, does not end in `_`, the sanitized tool
/// name is not empty, and the qualified name needed no shortening.
pub proof fn lemma_parse_inverts_qualify(server: Seq<char>, tool: Seq<char>)
    requires
        sanitized(server).len() > 0,
        sanitized(tool).len() > 0,
        forall|j: int| #![trigger sanitized(server)[j]]
            0 <= j < sanitized(server).len() - 1 ==> !(sanitized(server)[j] == '_' && sanitized(
                server,
            )[j + 1] == '_'),
        sanitized(server).last() != '_',
        base_qualified_name(server, tool).len() <= MAX_QUALIFIED_LEN,
    ensures
        parse_qualified(qualified_tool_name(server, tool)) == Ok::<
            (Seq<char>, Seq<char>),
            QualifiedNameError,
        >((sanitized(server), sanitized(tool))),
{
    let ss = sanitized(server);
    let st = sanitized(tool);
    let value = qualified_tool_name(server, tool);
    assert(value == base_qualified_name(server, tool));
    assert(value.take(5) =~= qualified_prefix());
    let rest = value.skip(5);
    assert(rest =~= ss + seq!['_', '_'] + st);
    let k = ss.len() as int;
    assert(sep_at(rest, k));
    assert forall|j: int| 0 <= j < k implies !sep_at(rest, j) by {
        if j < k - 1 {
            assert(rest[j] == ss[j]);
            assert(rest[j + 1] == ss[j + 1]);
        } else {
            assert(rest[j] == ss.last());
        }
    }
    lemma_first_sep_at(rest, 0, k);
    assert(rest.take(k) =~= ss);
    assert(rest.skip(k + 2) =~= st);
}

/// Every char of a sanitized name is a lower-case ASCII letter, a digit or `_`.
pub proof fn lemma_sanitized_chars(s: Seq<char>)
    ensures
        forall|i: int| 0 <= i < sanitized(s).len() ==> is_name_char(#[trigger] sanitized(s)[i]),
{
    assert forall|i: int| 0 <= i < sanitized(s).len() implies is_name_char(
        #[trigger] sanitized(s)[i],
    ) by {
        let c = s[i];
        if is_ascii_alnum(c) || c == '_' {
            if ('A' as u32) <= (c as u32) <= ('Z' as u32) {
                assert((((c as u32) + 32) as char) as u32 == (c as u32) + 32);
            }
        }
    }
}

/// Every char of a hexadecimal rendering is a digit or a letter `a`-`f`.
proof fn lemma_hex_chars(n: nat)
    ensures
        forall|i: int| 0 <= i < hex_digits(n).len() ==> is_name_char(#[trigger] hex_digits(n)[i]),
    decreases n,
{
    let d = n % 16;
    if d < 10 {
        assert(((('0' as u32) + d) as char) as u32 == ('0' as u32) + d);
    } else {
        assert(((('a' as u32) + (d - 10)) as char) as u32 == ('a' as u32) + (d - 10));
    }
    assert(is_name_char(hex_digit(d)));
    if n < 16 {
        assert(d == n);
        assert(hex_digits(n) =~= seq![hex_digit(n)]);
    } else {
        lemma_hex_chars(n / 16);
        let h = hex_digits(n);
        assert forall|i: int| 0 <= i < h.len() implies is_name_char(#[trigger] h[i]) by {
            if i < h.len() - 1 {
                assert(h[i] == hex_digits(n / 16)[i]);
            } else {
                assert(h[i] == hex_digit(d));
            }
        }
    }
}

/// A qualified name starts with `mcp__`, is at most 64 chars long, and holds only
/// lower-case ASCII letters, digits and `_`.
pub proof fn lemma_qualified_name_shape(server: Seq<char>, tool: Seq<char>)
    requires
        qualify_hash_ok(server, tool),
    ensures
        has_prefix(qualified_tool_name(server, tool), qualified_prefix()),
        qualified_tool_name(server, tool).len() <= MAX_QUALIFIED_LEN,
        forall|i: int|
            0 <= i < qualified_tool_name(server, tool).len() ==> is_name_char(
                #[trigger] qualified_tool_name(server, tool)[i],
            ),
{
    let base = base_qualified_name(server, tool);
    let q = qualified_tool_name(server, tool);
    lemma_sanitized_chars(server);
    lemma_sanitized_chars(tool);
    assert(base.take(5) =~= qualified_prefix());
    assert forall|i: int| 0 <= i < base.len() implies is_name_char(#[trigger] base[i]) by {
        let ss = sanitized(server);
        if i < 5 {
        } else if i < 5 + ss.len() {
            assert(base[i] == ss[i - 5]);
        } else if i < 7 + ss.len() {
        } else {
            assert(base[i] == sanitized(tool)[i - 7 - ss.len()]);
        }
    }
    if base.len() > MAX_QUALIFIED_LEN {
        let h = default_hash(base);
        lemma_hex_chars(h as nat);
        assert(q.take(5) =~= qualified_prefix());
        assert forall|i: int| 0 <= i < q.len() implies is_name_char(#[trigger] q[i]) by {
            if i < 48 {
                assert(q[i] == base[i]);
            } else if i > 48 {
                assert(q[i] == hex_digits(h as nat)[i - 49]);
            }
        }
    }
}

/// A tool that a deny entry names is refused, whatever the allow list says.
pub proof fn lemma_deny_overrides_allow(filter: ToolFilterView, name: Seq<char>)
    requires
        filter.deny.contains(name),
    ensures
        !filter_allows(filter, name),
{
}

} // verus!
