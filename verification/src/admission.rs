use vstd::prelude::*;

use crate::host::{
    opt_chars, spec_changes_state, RequestMethod, SessionNonce, PRODUCT_SERVICE_STATUS_PATH,
    SHARED_WATCH_SUBPROTOCOL, WATCH_SOCKET_PATH,
};
use crate::text::{
    has_prefix, lemma_split_close, lemma_split_extend, lemma_split_finish, lemma_split_init,
    range_eq, range_has_prefix, split_on, str_eq, trim, trim_range,
};

verus! {

// ---------------------------------------------------------------------------------------------
// The `session=` query field of a WebSocket handshake.
// ---------------------------------------------------------------------------------------------

/// The values of the `session=` fields among `fields`, in order.
pub open spec fn session_values(fields: Seq<Seq<char>>) -> Seq<Seq<char>>
    decreases fields.len(),
{
    if fields.len() == 0 {
        Seq::<Seq<char>>::empty()
    } else {
        let earlier = session_values(fields.drop_last());
        let field = fields.last();
        if has_prefix(field, "session="@) {
            earlier.push(field.subrange("session="@.len() as int, field.len() as int))
        } else {
            earlier
        }
    }
}

/// The session nonce a query carries: the value of its one `session=` field, if there is
/// exactly one.
pub open spec fn spec_session_query(query: Option<Seq<char>>) -> Option<Seq<char>> {
    match query {
        None => None,
        Some(q) => {
            let values = session_values(split_on(q, '&'));
            if values.len() == 1 {
                Some(values[0])
            } else {
                None
            }
        },
    }
}

/// The value of the single `session=` field of a query string.
pub fn session_query(query: Option<&str>) -> (res: Option<&str>)
    ensures
        opt_chars(res) == spec_session_query(opt_chars(query)),
{
    let q = match query {
        Some(q) => q,
        None => return None,
    };
    let n = q.unicode_len();
    let plen = "session=".unicode_len();
    let mut i: usize = 0;
    let mut start: usize = 0;
    let mut count: usize = 0;
    let mut value_start: usize = 0;
    let mut value_end: usize = 0;
    let ghost mut done: Seq<Seq<char>> = Seq::empty();
    proof {
        lemma_split_init(q@, '&');
    }
    while i < n
        invariant
            n == q@.len(),
            plen == "session="@.len(),
            start <= i <= n,
            value_start <= value_end <= n,
            split_on(q@.subrange(0, i as int), '&') == done.push(q@.subrange(start as int, i as int)),
            count == (if session_values(done).len() < 2 {
                session_values(done).len()
            } else {
                2
            }),
            count >= 1 ==> session_values(done)[0] == q@.subrange(
                value_start as int,
                value_end as int,
            ),
        decreases n - i,
    {
        if q.get_char(i) == '&' {
            let is_session = range_has_prefix(q, start, i, "session=");
            proof {
                let field = q@.subrange(start as int, i as int);
                lemma_split_close(q@, start as int, i as int, done, '&');
                if is_session {
                    assert(field.subrange(plen as int, field.len() as int) =~= q@.subrange(
                        start + plen,
                        i as int,
                    ));
                }
                done = done.push(field);
            }
            if is_session {
                if count == 0 {
                    value_start = start + plen;
                    value_end = i;
                }
                if count < 2 {
                    count = count + 1;
                }
            }
            start = i + 1;
        } else {
            proof {
                lemma_split_extend(q@, start as int, i as int, done, '&');
            }
        }
        i = i + 1;
    }
    let is_session = range_has_prefix(q, start, n, "session=");
    proof {
        let field = q@.subrange(start as int, n as int);
        lemma_split_finish(q@, start as int, done, '&');
        if is_session {
            assert(field.subrange(plen as int, field.len() as int) =~= q@.subrange(
                start + plen,
                n as int,
            ));
        }
        done = done.push(field);
    }
    if is_session {
        if count == 0 {
            value_start = start + plen;
            value_end = n;
        }
        if count < 2 {
            count = count + 1;
        }
    }
    if count == 1 {
        Some(q.substring_char(value_start, value_end))
    } else {
        None
    }
}

// ---------------------------------------------------------------------------------------------
// Secondary WebSocket route paths.
// ---------------------------------------------------------------------------------------------

/// Why a target-supplied secondary WebSocket path was refused.
#[derive(Clone, Copy, Debug, Eq, PartialEq)]
pub enum SecondaryRoutePathRejection {
    /// The path does not start at the root.
    NotAbsolute,
    /// The path ends in `/`, or two separators are adjacent.
    EmptySegment,
    /// A segment is `.` or `..`.
    RelativeSegment,
    /// The path carries a query or fragment instead of being a bare path.
    QueryOrFragment,
    /// A character outside the RFC 3986 unreserved set.
    NotLiteral,
    /// The path is the host's own built-in watch route.
    ReservedPath,
    /// Another route in the same set already claimed this path.
    Duplicate,
}

impl SecondaryRoutePathRejection {
    /// The human-readable reason, as `Display` writes it.
    pub fn message(&self) -> (res: &'static str)
        ensures
            res@ == spec_rejection_message(*self),
    {
        match self {
            SecondaryRoutePathRejection::NotAbsolute => "not an absolute path",
            SecondaryRoutePathRejection::EmptySegment => "empty path segment",
            SecondaryRoutePathRejection::RelativeSegment => "relative path segment",
            SecondaryRoutePathRejection::QueryOrFragment => "carries a query or fragment",
            SecondaryRoutePathRejection::NotLiteral => "not a literal path",
            SecondaryRoutePathRejection::ReservedPath => "reserved by the built-in watch route",
            SecondaryRoutePathRejection::Duplicate => "already claimed by another route in the set",
        }
    }
}

/// The reason text of each rejection.
pub open spec fn spec_rejection_message(r: SecondaryRoutePathRejection) -> Seq<char> {
    match r {
        SecondaryRoutePathRejection::NotAbsolute => "not an absolute path"@,
        SecondaryRoutePathRejection::EmptySegment => "empty path segment"@,
        SecondaryRoutePathRejection::RelativeSegment => "relative path segment"@,
        SecondaryRoutePathRejection::QueryOrFragment => "carries a query or fragment"@,
        SecondaryRoutePathRejection::NotLiteral => "not a literal path"@,
        SecondaryRoutePathRejection::ReservedPath => "reserved by the built-in watch route"@,
        SecondaryRoutePathRejection::Duplicate => "already claimed by another route in the set"@,
    }
}

/// RFC 3986 unreserved characters: ASCII letters and digits, `-`, `.`, `_`, `~`.
pub open spec fn is_unreserved(c: char) -> bool {
    ||| ('a' <= c && c <= 'z')
    ||| ('A' <= c && c <= 'Z')
    ||| ('0' <= c && c <= '9')
    ||| c == '-'
    ||| c == '.'
    ||| c == '_'
    ||| c == '~'
}

/// The rejection of one path segment, if any.
pub open spec fn segment_rejection(segment: Seq<char>) -> Option<SecondaryRoutePathRejection> {
    if segment.len() == 0 {
        Some(SecondaryRoutePathRejection::EmptySegment)
    } else if segment == "."@ || segment == ".."@ {
        Some(SecondaryRoutePathRejection::RelativeSegment)
    } else if exists|j: int| 0 <= j < segment.len() && !is_unreserved(#[trigger] segment[j]) {
        Some(SecondaryRoutePathRejection::NotLiteral)
    } else {
        None
    }
}

/// The rejection of the first refused segment, in path order.
pub open spec fn segments_rejection(segments: Seq<Seq<char>>) -> Option<
    SecondaryRoutePathRejection,
>
    decreases segments.len(),
{
    if segments.len() == 0 {
        None
    } else {
        match segments_rejection(segments.drop_last()) {
            Some(r) => Some(r),
            None => segment_rejection(segments.last()),
        }
    }
}

/// Why `path` may not be a secondary WebSocket route: not the built-in watch path, no query
/// or fragment, absolute, and every segment a non-relative literal.
pub open spec fn spec_path_rejection(path: Seq<char>) -> Option<SecondaryRoutePathRejection> {
    if path == WATCH_SOCKET_PATH@ {
        Some(SecondaryRoutePathRejection::ReservedPath)
    } else if path.contains('?') || path.contains('#') {
        Some(SecondaryRoutePathRejection::QueryOrFragment)
    } else if path.len() == 0 || path[0] != '/' {
        Some(SecondaryRoutePathRejection::NotAbsolute)
    } else {
        segments_rejection(split_on(path.subrange(1, path.len() as int), '/'))
    }
}

fn char_is_unreserved(c: char) -> (res: bool)
    ensures
        res == is_unreserved(c),
{
    ('a' <= c && c <= 'z') || ('A' <= c && c <= 'Z') || ('0' <= c && c <= '9') || c == '-' || c
        == '.' || c == '_' || c == '~'
}

fn contains_char(s: &str, c: char) -> (res: bool)
    ensures
        res == s@.contains(c),
{
    let n = s.unicode_len();
    let mut i: usize = 0;
    while i < n
        invariant
            n == s@.len(),
            i <= n,
            forall|j: int| 0 <= j < i ==> s@[j] != c,
        decreases n - i,
    {
        if s.get_char(i) == c {
            assert(s@[i as int] == c);
            return true;
        }
        i = i + 1;
    }
    false
}

fn range_segment_rejection(s: &str, start: usize, end: usize) -> (res: Option<
    SecondaryRoutePathRejection,
>)
    requires
        start <= end <= s@.len(),
    ensures
        res == segment_rejection(s@.subrange(start as int, end as int)),
{
    let ghost seg = s@.subrange(start as int, end as int);
    if start == end {
        return Some(SecondaryRoutePathRejection::EmptySegment);
    }
    if range_eq(s, start, end, ".") || range_eq(s, start, end, "..") {
        return Some(SecondaryRoutePathRejection::RelativeSegment);
    }
    let mut i = start;
    while i < end
        invariant
            start <= i <= end <= s@.len(),
            seg == s@.subrange(start as int, end as int),
            seg.len() > 0,
            seg != "."@,
            seg != ".."@,
            forall|j: int| 0 <= j < i - start ==> is_unreserved(#[trigger] seg[j]),
        decreases end - i,
    {
        if !char_is_unreserved(s.get_char(i)) {
            assert(!is_unreserved(seg[i - start]));
            return Some(SecondaryRoutePathRejection::NotLiteral);
        }
        i = i + 1;
    }
    None
}

/// Absolute, exact, literal, and not the built-in watch path.
pub fn secondary_route_path_rejection(path: &str) -> (res: Option<SecondaryRoutePathRejection>)
    ensures
        res == spec_path_rejection(path@),
{
    if str_eq(path, WATCH_SOCKET_PATH) {
        return Some(SecondaryRoutePathRejection::ReservedPath);
    }
    if contains_char(path, '?') || contains_char(path, '#') {
        return Some(SecondaryRoutePathRejection::QueryOrFragment);
    }
    let n = path.unicode_len();
    if n == 0 || path.get_char(0) != '/' {
        return Some(SecondaryRoutePathRejection::NotAbsolute);
    }
    let rest = path.substring_char(1, n);
    let m = rest.unicode_len();
    let mut i: usize = 0;
    let mut start: usize = 0;
    let mut first: Option<SecondaryRoutePathRejection> = None;
    let ghost mut done: Seq<Seq<char>> = Seq::empty();
    proof {
        lemma_split_init(rest@, '/');
    }
    while i < m
        invariant
            m == rest@.len(),
            rest@ == path@.subrange(1, n as int),
            start <= i <= m,
            split_on(rest@.subrange(0, i as int), '/') == done.push(
                rest@.subrange(start as int, i as int),
            ),
            first == segments_rejection(done),
        decreases m - i,
    {
        if rest.get_char(i) == '/' {
            let r = range_segment_rejection(rest, start, i);
            proof {
                lemma_split_close(rest@, start as int, i as int, done, '/');
                done = done.push(rest@.subrange(start as int, i as int));
            }
            if first.is_none() {
                first = r;
            }
            start = i + 1;
        } else {
            proof {
                lemma_split_extend(rest@, start as int, i as int, done, '/');
            }
        }
        i = i + 1;
    }
    proof {
        lemma_split_finish(rest@, start as int, done, '/');
        done = done.push(rest@.subrange(start as int, m as int));
    }
    if first.is_some() {
        return first;
    }
    range_segment_rejection(rest, start, m)
}

// ---------------------------------------------------------------------------------------------
// WebSocket and HTTP admission.
// ---------------------------------------------------------------------------------------------

/// Some comma-separated entry of the header, once trimmed, is exactly `word`.
pub open spec fn any_trimmed_piece_is(pieces: Seq<Seq<char>>, word: Seq<char>) -> bool
    decreases pieces.len(),
{
    if pieces.len() == 0 {
        false
    } else {
        any_trimmed_piece_is(pieces.drop_last(), word) || trim(pieces.last()) == word
    }
}

/// The `Sec-WebSocket-Protocol` header offers the shared subprotocol.
pub open spec fn spec_requested_subprotocol(header: Option<Seq<char>>) -> bool {
    match header {
        None => false,
        Some(h) => any_trimmed_piece_is(split_on(h, ','), SHARED_WATCH_SUBPROTOCOL@),
    }
}

/// Whether the protocol header offers the shared subprotocol among its comma-separated entries.
pub fn requested_subprotocol(header: Option<&str>) -> (res: bool)
    ensures
        res == spec_requested_subprotocol(opt_chars(header)),
{
    let h = match header {
        Some(h) => h,
        None => return false,
    };
    let n = h.unicode_len();
    let mut i: usize = 0;
    let mut start: usize = 0;
    let mut found = false;
    let ghost mut done: Seq<Seq<char>> = Seq::empty();
    proof {
        lemma_split_init(h@, ',');
    }
    while i < n
        invariant
            n == h@.len(),
            start <= i <= n,
            split_on(h@.subrange(0, i as int), ',') == done.push(h@.subrange(start as int, i as int)),
            found == any_trimmed_piece_is(done, SHARED_WATCH_SUBPROTOCOL@),
        decreases n - i,
    {
        if h.get_char(i) == ',' {
            let (lo, hi) = trim_range(h, start, i);
            let hit = range_eq(h, lo, hi, SHARED_WATCH_SUBPROTOCOL);
            proof {
                lemma_split_close(h@, start as int, i as int, done, ',');
                done = done.push(h@.subrange(start as int, i as int));
            }
            found = found || hit;
            start = i + 1;
        } else {
            proof {
                lemma_split_extend(h@, start as int, i as int, done, ',');
            }
        }
        i = i + 1;
    }
    let (lo, hi) = trim_range(h, start, n);
    let hit = range_eq(h, lo, hi, SHARED_WATCH_SUBPROTOCOL);
    proof {
        lemma_split_finish(h@, start as int, done, ',');
        done = done.push(h@.subrange(start as int, n as int));
    }
    found || hit
}

fn opt_str_is(value: Option<&str>, expected: &str) -> (res: bool)
    ensures
        res == (opt_chars(value) == Some(expected@)),
{
    match value {
        Some(v) => str_eq(v, expected),
        None => false,
    }
}

/// The one WebSocket admission policy: exact loopback authority, exact origin, exactly one
/// matching session nonce, and the shared subprotocol.
pub open spec fn spec_websocket_admission_denied(
    authority: Seq<char>,
    origin: Seq<char>,
    nonce: Seq<char>,
    host_header: Option<Seq<char>>,
    origin_header: Option<Seq<char>>,
    query: Option<Seq<char>>,
    protocol_header: Option<Seq<char>>,
) -> bool {
    ||| host_header != Some(authority)
    ||| origin_header != Some(origin)
    ||| spec_session_query(query) != Some(nonce)
    ||| !spec_requested_subprotocol(protocol_header)
}

/// Whether a WebSocket handshake with these headers and query is refused.
pub fn websocket_admission_denied(
    authority: &str,
    origin: &str,
    nonce: &SessionNonce,
    host_header: Option<&str>,
    origin_header: Option<&str>,
    query: Option<&str>,
    protocol_header: Option<&str>,
) -> (res: bool)
    ensures
        res == spec_websocket_admission_denied(
            authority@,
            origin@,
            nonce.spec_text(),
            opt_chars(host_header),
            opt_chars(origin_header),
            opt_chars(query),
            opt_chars(protocol_header),
        ),
{
    !opt_str_is(host_header, authority) || !opt_str_is(origin_header, origin) || !opt_str_is(
        session_query(query),
        nonce.as_str(),
    ) || !requested_subprotocol(protocol_header)
}

/// What the host does with a plain HTTP request before any route extension sees it.
#[derive(Clone, Copy, Debug, Eq, PartialEq)]
pub enum ExtensionAdmission {
    /// The Host header is not the loopback authority: 421.
    MisdirectedHost,
    /// Origin or session nonce is missing or wrong where it is required: 403.
    Forbidden,
    /// The request reaches the route extension.
    Admitted,
}

/// Some `&`-separated field begins with `activeTerm=` or `activeCampus=`.
pub open spec fn any_scope_field(fields: Seq<Seq<char>>) -> bool
    decreases fields.len(),
{
    if fields.len() == 0 {
        false
    } else {
        any_scope_field(fields.drop_last()) || has_prefix(fields.last(), "activeTerm="@)
            || has_prefix(fields.last(), "activeCampus="@)
    }
}

/// A `GET` of the service status route with a target scope in its query.
pub open spec fn spec_scoped_status(
    method: RequestMethod,
    path: Seq<char>,
    query: Option<Seq<char>>,
) -> bool {
    &&& method is Get
    &&& path == PRODUCT_SERVICE_STATUS_PATH@
    &&& match query {
        Some(q) => any_scope_field(split_on(q, '&')),
        None => false,
    }
}

/// Reads must name the loopback authority; state changes also need the exact origin and the
/// session nonce; a target-scoped status read also needs the nonce.
pub open spec fn spec_extension_admission(
    authority: Seq<char>,
    origin: Seq<char>,
    nonce: Seq<char>,
    method: RequestMethod,
    path: Seq<char>,
    query: Option<Seq<char>>,
    host_header: Option<Seq<char>>,
    origin_header: Option<Seq<char>>,
    session_header: Option<Seq<char>>,
) -> ExtensionAdmission {
    if host_header != Some(authority) {
        ExtensionAdmission::MisdirectedHost
    } else if spec_changes_state(method) && (origin_header != Some(origin) || session_header
        != Some(nonce)) {
        ExtensionAdmission::Forbidden
    } else if spec_scoped_status(method, path, query) && session_header != Some(nonce) {
        ExtensionAdmission::Forbidden
    } else {
        ExtensionAdmission::Admitted
    }
}

fn query_has_scope_field(q: &str) -> (res: bool)
    ensures
        res == any_scope_field(split_on(q@, '&')),
{
    let n = q.unicode_len();
    let mut i: usize = 0;
    let mut start: usize = 0;
    let mut found = false;
    let ghost mut done: Seq<Seq<char>> = Seq::empty();
    proof {
        lemma_split_init(q@, '&');
    }
    while i < n
        invariant
            n == q@.len(),
            start <= i <= n,
            split_on(q@.subrange(0, i as int), '&') == done.push(q@.subrange(start as int, i as int)),
            found == any_scope_field(done),
        decreases n - i,
    {
        if q.get_char(i) == '&' {
            let hit = range_has_prefix(q, start, i, "activeTerm=") || range_has_prefix(
                q,
                start,
                i,
                "activeCampus=",
            );
            proof {
                lemma_split_close(q@, start as int, i as int, done, '&');
                done = done.push(q@.subrange(start as int, i as int));
            }
            found = found || hit;
            start = i + 1;
        } else {
            proof {
                lemma_split_extend(q@, start as int, i as int, done, '&');
            }
        }
        i = i + 1;
    }
    let hit = range_has_prefix(q, start, n, "activeTerm=") || range_has_prefix(
        q,
        start,
        n,
        "activeCampus=",
    );
    proof {
        lemma_split_finish(q@, start as int, done, '&');
        done = done.push(q@.subrange(start as int, n as int));
    }
    found || hit
}

/// Decides whether a plain HTTP request reaches the route extension.
pub fn extension_admission(
    authority: &str,
    origin: &str,
    nonce: &SessionNonce,
    method: &RequestMethod,
    path: &str,
    query: Option<&str>,
    host_header: Option<&str>,
    origin_header: Option<&str>,
    session_header: Option<&str>,
) -> (res: ExtensionAdmission)
    ensures
        res == spec_extension_admission(
            authority@,
            origin@,
            nonce.spec_text(),
            *method,
            path@,
            opt_chars(query),
            opt_chars(host_header),
            opt_chars(origin_header),
            opt_chars(session_header),
        ),
{
    if !opt_str_is(host_header, authority) {
        return ExtensionAdmission::MisdirectedHost;
    }
    let session_ok = opt_str_is(session_header, nonce.as_str());
    if method.changes_state() && (!opt_str_is(origin_header, origin) || !session_ok) {
        return ExtensionAdmission::Forbidden;
    }
    let is_get = match method {
        RequestMethod::Get => true,
        _ => false,
    };
    let scoped = is_get && str_eq(path, PRODUCT_SERVICE_STATUS_PATH) && match query {
        Some(q) => query_has_scope_field(q),
        None => false,
    };
    if scoped && !session_ok {
        return ExtensionAdmission::Forbidden;
    }
    ExtensionAdmission::Admitted
}

/// The first path of a route set that repeats an earlier one, if any: a set of secondary
/// routes is refused at that path before anything is bound.
pub fn duplicate_route_path(paths: &Vec<&'static str>) -> (res: Option<usize>)
    ensures
        match res {
            Some(j) => {
                &&& j < paths@.len()
                &&& exists|i: int| 0 <= i < j && (#[trigger] paths@[i])@ == paths@[j as int]@
                &&& forall|a: int, b: int| 0 <= a < b < j ==> (#[trigger] paths@[a])@ != (#[trigger] paths@[b])@
            },
            None => forall|a: int, b: int|
                0 <= a < b < paths@.len() ==> (#[trigger] paths@[a])@ != (#[trigger] paths@[b])@,
        },
{
    let mut j: usize = 0;
    while j < paths.len()
        invariant
            j <= paths@.len(),
            forall|a: int, b: int| 0 <= a < b < j ==> (#[trigger] paths@[a])@ != (#[trigger] paths@[b])@,
        decreases paths.len() - j,
    {
        let mut i: usize = 0;
        while i < j
            invariant
                i <= j < paths@.len(),
                forall|a: int, b: int| 0 <= a < b < j ==> (#[trigger] paths@[a])@ != (#[trigger] paths@[b])@,
                forall|a: int| 0 <= a < i ==> (#[trigger] paths@[a])@ != paths@[j as int]@,
            decreases j - i,
        {
            if str_eq(paths[i], paths[j]) {
                return Some(j);
            }
            i = i + 1;
        }
        j = j + 1;
    }
    None
}

} // verus!
