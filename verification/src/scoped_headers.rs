//! Headers that are only attached to requests whose host matches an allowlist.
//!
//! Used to attach sensitive headers, such as an access token, to trusted hosts
//! only, so that they are never sent to an unrelated origin named by a remote
//! configuration.

use http::{HeaderMap, HeaderValue};
use vstd::prelude::*;

use crate::headers;
use crate::headers::Header;
use crate::text;
use crate::uri::Uri;

verus! {

/// A host name without the dots at its end.
pub open spec fn without_trailing_dots(host: Seq<char>) -> Seq<char>
    decreases host.len(),
{
    if host.len() > 0 && host.last() == '.' {
        without_trailing_dots(host.drop_last())
    } else {
        host
    }
}

/// A host name as it is compared: without trailing dots, in lower case.
pub open spec fn normalized(host: Seq<char>) -> Seq<char> {
    text::lower_text(without_trailing_dots(host))
}

/// Whether `host` is `suffix`, or a name below it: `suffix` preceded by a dot.
pub open spec fn under_suffix(host: Seq<char>, suffix: Seq<char>) -> bool {
    ||| host == suffix
    ||| {
        &&& host.len() > suffix.len()
        &&& host.skip(host.len() - suffix.len()) == suffix
        &&& host[host.len() - suffix.len() - 1] == '.'
    }
}

/// Whether a host is covered by one of the suffixes.
pub open spec fn host_allowed(suffixes: Seq<Seq<char>>, host: Seq<char>) -> bool {
    exists|i: int|
        0 <= i < suffixes.len() && under_suffix(normalized(host), #[trigger] suffixes[i])
}

/// `present` with all headers in `scoped` whose name it lacks.
pub open spec fn attached(present: Seq<headers::Entry>, scoped: Seq<headers::Entry>) -> Seq<
    headers::Entry,
>
    decreases scoped.len(),
{
    if scoped.len() == 0 {
        present
    } else {
        let before = attached(present, scoped.drop_last());
        if headers::has_name(present, scoped.last().0) {
            before
        } else {
            headers::appended(before, scoped.last())
        }
    }
}

/// A set of headers attached to a request only when the request's host matches
/// one of the allowed domain suffixes.
///
/// Matching uses strict label boundaries: a host matches a suffix when it is
/// equal to the suffix or ends with `.` followed by the suffix. This prevents
/// look-alike hosts such as `example.com.evil.com` from matching `example.com`.
///
/// Existing headers are never overwritten, so a header set explicitly by the
/// caller takes precedence over a scoped header with the same name.
#[derive(Debug)]
pub struct ScopedHeaders {
    headers: HeaderMap<HeaderValue>,
    allowed_host_suffixes: Vec<String>,
}

/// The headers and the suffixes of a [`ScopedHeaders`].
pub struct Scope {
    pub headers: Seq<headers::Entry>,
    pub suffixes: Seq<Seq<char>>,
}

/// The characters of some texts.
pub open spec fn chars_of_all(texts: Seq<String>) -> Seq<Seq<char>> {
    texts.map_values(|t: String| t@)
}

impl View for ScopedHeaders {
    type V = Scope;

    closed spec fn view(&self) -> Scope {
        Scope {
            headers: headers::entries(self.headers),
            suffixes: chars_of_all(self.allowed_host_suffixes@),
        }
    }
}

impl Clone for ScopedHeaders {
    fn clone(&self) -> (r: Self)
        ensures
            r@ == self@,
    {
        let mut suffixes: Vec<String> = Vec::new();
        let mut i: usize = 0;
        while i < self.allowed_host_suffixes.len()
            invariant
                i <= self.allowed_host_suffixes.len(),
                suffixes@.len() == i,
                forall|j: int|
                    0 <= j < i ==> (#[trigger] suffixes@[j])@ == self.allowed_host_suffixes@[j]@,
            decreases self.allowed_host_suffixes.len() - i,
        {
            suffixes.push(self.allowed_host_suffixes[i].clone());
            i = i + 1;
        }
        assert(chars_of_all(suffixes@) =~= chars_of_all(self.allowed_host_suffixes@));
        ScopedHeaders {
            headers: headers::copy_map(&self.headers),
            allowed_host_suffixes: suffixes,
        }
    }
}

impl Default for ScopedHeaders {
    fn default() -> (r: Self)
        ensures
            r@.headers == Seq::<headers::Entry>::empty(),
            r@.suffixes == Seq::<Seq<char>>::empty(),
    {
        let r = ScopedHeaders { headers: headers::new_map(), allowed_host_suffixes: Vec::new() };
        assert(r@.suffixes =~= Seq::<Seq<char>>::empty());
        r
    }
}

/// The host name as it is compared.
pub fn normalize_host(host: &str) -> (r: Vec<char>)
    ensures
        r@ == normalized(host@),
{
    let chars = text::chars_of(host);
    let mut end: usize = chars.len();
    assert(chars@.take(end as int) =~= chars@);
    while end > 0 && chars[end - 1] == '.'
        invariant
            end <= chars@.len(),
            without_trailing_dots(chars@) == without_trailing_dots(chars@.take(end as int)),
        decreases end,
    {
        assert(chars@.take(end as int).drop_last() =~= chars@.take(end - 1));
        end = end - 1;
    }
    assert(without_trailing_dots(chars@) == chars@.take(end as int));
    let mut out: Vec<char> = Vec::new();
    let mut i: usize = 0;
    while i < end
        invariant
            i <= end <= chars@.len(),
            out@ =~= text::lower_text(chars@.take(i as int)),
        decreases end - i,
    {
        out.push(text::lower_char(chars[i]));
        i = i + 1;
    }
    out
}

/// Whether `host` is `suffix`, or a name below it.
fn is_under_suffix(host: &Vec<char>, suffix: &Vec<char>) -> (r: bool)
    ensures
        r == under_suffix(host@, suffix@),
{
    if host.len() < suffix.len() {
        return false;
    }
    let offset: usize = host.len() - suffix.len();
    let mut i: usize = 0;
    while i < suffix.len()
        invariant
            i <= suffix@.len(),
            offset == host.len() - suffix.len(),
            forall|j: int| 0 <= j < i ==> host@[offset + j] == suffix@[j],
        decreases suffix@.len() - i,
    {
        if host[offset + i] != suffix[i] {
            proof {
                assert(host@.skip(offset as int)[i as int] == host@[offset + i]);
                if offset == 0 {
                    assert(host@[i as int] != suffix@[i as int]);
                }
            }
            return false;
        }
        i = i + 1;
    }
    assert(host@.skip(offset as int) =~= suffix@);
    if offset == 0 {
        assert(host@ =~= suffix@);
        true
    } else {
        host[offset - 1] == '.'
    }
}

impl ScopedHeaders {
    /// Headers to attach, and the domain suffixes that they may be sent to.
    ///
    /// Suffixes are normalized, lower case and without dots at the end, so that
    /// matching ignores letter case and the dot of a fully qualified name.
    pub fn new(headers: HeaderMap<HeaderValue>, allowed_host_suffixes: Vec<String>) -> (r: Self)
        ensures
            r@.headers == headers::entries(headers),
            r@.suffixes == chars_of_all(allowed_host_suffixes@).map_values(
                |s: Seq<char>| normalized(s),
            ),
    {
        let mut suffixes: Vec<String> = Vec::new();
        let mut i: usize = 0;
        while i < allowed_host_suffixes.len()
            invariant
                i <= allowed_host_suffixes.len(),
                suffixes@.len() == i,
                forall|j: int|
                    0 <= j < i ==> (#[trigger] suffixes@[j])@ == normalized(
                        allowed_host_suffixes@[j]@,
                    ),
            decreases allowed_host_suffixes.len() - i,
        {
            let chars = normalize_host(allowed_host_suffixes[i].as_str());
            suffixes.push(text::text_of(&chars));
            i = i + 1;
        }
        assert(chars_of_all(suffixes@) =~= chars_of_all(allowed_host_suffixes@).map_values(
            |s: Seq<char>| normalized(s),
        ));
        ScopedHeaders { headers, allowed_host_suffixes: suffixes }
    }

    /// Whether the given host is covered by an allowed suffix, using strict
    /// label boundaries.
    ///
    /// Matching ignores letter case and dots at the end of the host.
    pub fn allows_host(&self, host: &str) -> (r: bool)
        ensures
            r == host_allowed(self@.suffixes, host@),
    {
        let host_chars = normalize_host(host);
        let mut i: usize = 0;
        while i < self.allowed_host_suffixes.len()
            invariant
                i <= self.allowed_host_suffixes.len(),
                host_chars@ == normalized(host@),
                forall|j: int|
                    0 <= j < i ==> !under_suffix(host_chars@, #[trigger] self@.suffixes[j]),
            decreases self.allowed_host_suffixes.len() - i,
        {
            let suffix = text::chars_of(self.allowed_host_suffixes[i].as_str());
            assert(self@.suffixes[i as int] == suffix@);
            if is_under_suffix(&host_chars, &suffix) {
                return true;
            }
            i = i + 1;
        }
        false
    }

    /// How many headers there are to attach.
    pub fn len(&self) -> (r: usize)
        ensures
            r == self@.headers.len(),
    {
        headers::count(&self.headers)
    }

    /// Whether the scoped headers can be attached to `headers` without
    /// reaching the limit of a header map.
    pub fn fits(&self, headers: &HeaderMap<HeaderValue>) -> (r: bool)
        ensures
            r == (headers::entries(*headers).len() + self@.headers.len() <= headers::MAX_HEADERS),
    {
        let present: usize = headers::count(headers);
        let scoped: usize = self.len();
        present <= headers::MAX_HEADERS && scoped <= headers::MAX_HEADERS - present
    }

    /// Attaches the scoped headers to `headers` when the URI's host matches an
    /// allowed suffix. Headers already present are left untouched.
    pub fn apply(&self, uri: &Uri, headers: &mut HeaderMap<HeaderValue>)
        requires
            headers::entries(*old(headers)).len() + self@.headers.len() <= headers::MAX_HEADERS,
        ensures
            headers::entries(*final(headers)) == if uri.host is Some && host_allowed(
                self@.suffixes,
                uri.host->0@,
            ) {
                attached(headers::entries(*old(headers)), self@.headers)
            } else {
                headers::entries(*old(headers))
            },
    {
        let host = match &uri.host {
            Some(host) => host,
            None => {
                return ;
            },
        };
        if !self.allows_host(host.as_str()) {
            return ;
        }
        let scoped: Vec<Header> = headers::list(&self.headers);
        let ghost present = headers::entries(*headers);
        // Which names the request had before any was attached.
        let mut taken: Vec<bool> = Vec::new();
        let mut i: usize = 0;
        while i < scoped.len()
            invariant
                i <= scoped.len(),
                taken@.len() == i,
                headers::entries(*headers) == present,
                forall|j: int|
                    0 <= j < i ==> #[trigger] taken@[j] == headers::has_name(
                        present,
                        scoped@[j]@.0,
                    ),
            decreases scoped.len() - i,
        {
            taken.push(headers::contains(headers, &scoped[i].name));
            i = i + 1;
        }
        let mut i: usize = 0;
        assert(headers::views(scoped@).take(0) =~= Seq::empty());
        while i < scoped.len()
            invariant
                i <= scoped.len(),
                taken@.len() == scoped@.len(),
                forall|j: int|
                    0 <= j < taken@.len() ==> #[trigger] taken@[j] == headers::has_name(
                        present,
                        scoped@[j]@.0,
                    ),
                headers::views(scoped@) == self@.headers,
                present.len() + self@.headers.len() <= headers::MAX_HEADERS,
                headers::entries(*headers) == attached(present, self@.headers.take(i as int)),
                headers::entries(*headers).len() <= present.len() + i,
                forall|j: int|
                    0 <= j < scoped@.len() ==> headers::is_value((#[trigger] scoped@[j]).value@),
            decreases scoped.len() - i,
        {
            let header = &scoped[i];
            proof {
                let next = self@.headers.take(i + 1);
                assert(next.drop_last() =~= self@.headers.take(i as int));
                assert(next.last() == header@);
            }
            if !taken[i] {
                proof {
                    headers::appended_len(headers::entries(*headers), header@);
                }
                headers::append(
                    headers,
                    &header.name,
                    header.value.as_slice(),
                    header.sensitive,
                );
            }
            i = i + 1;
        }
        assert(self@.headers.take(i as int) =~= self@.headers);
    }
}

proof fn lemma_appended_keeps_prefix(
    prefix: Seq<headers::Entry>,
    all: Seq<headers::Entry>,
    entry: headers::Entry,
)
    requires
        prefix.is_prefix_of(all),
        !headers::has_name(prefix, entry.0),
    ensures
        prefix.is_prefix_of(headers::appended(all, entry)),
    decreases all.len(),
{
    if headers::has_name(all, entry.0) && all.last().0 != entry.0 {
        if prefix.len() == all.len() {
            assert(prefix =~= all);
        }
        lemma_appended_keeps_prefix(prefix, all.drop_last(), entry);
        headers::appended_len(all.drop_last(), entry);
    }
}

/// Attaching headers keeps all that were there, in place.
pub proof fn attaching_keeps_present(present: Seq<headers::Entry>, scoped: Seq<headers::Entry>)
    ensures
        present.is_prefix_of(attached(present, scoped)),
        attached(present, scoped).len() <= present.len() + scoped.len(),
    decreases scoped.len(),
{
    if scoped.len() > 0 {
        attaching_keeps_present(present, scoped.drop_last());
        let before = attached(present, scoped.drop_last());
        if !headers::has_name(present, scoped.last().0) {
            lemma_appended_keeps_prefix(present, before, scoped.last());
            headers::appended_len(before, scoped.last());
        }
    }
}

/// A name that the caller set is never attached again: its values stay those of
/// the caller.
pub proof fn explicit_header_wins(
    present: Seq<headers::Entry>,
    scoped: Seq<headers::Entry>,
    name: Seq<char>,
)
    requires
        headers::has_name(present, name),
    ensures
        headers::of_name(attached(present, scoped), name) == headers::of_name(present, name),
    decreases scoped.len(),
{
    if scoped.len() > 0 {
        explicit_header_wins(present, scoped.drop_last(), name);
        headers::appended_of_name(
            attached(present, scoped.drop_last()),
            scoped.last(),
            name,
        );
    }
}

/// Every other name gets all the values that the scoped headers have for it, in
/// the same order.
pub proof fn attaching_is_complete(
    present: Seq<headers::Entry>,
    scoped: Seq<headers::Entry>,
    name: Seq<char>,
)
    requires
        !headers::has_name(present, name),
    ensures
        headers::of_name(attached(present, scoped), name) == headers::of_name(scoped, name),
    decreases scoped.len(),
{
    if scoped.len() == 0 {
        headers::name_occurs(present, name);
        assert(headers::of_name(present, name) =~= Seq::empty());
    } else {
        attaching_is_complete(present, scoped.drop_last(), name);
        headers::appended_of_name(attached(present, scoped.drop_last()), scoped.last(), name);
    }
}

/// Letter case and dots at the end of a host make no difference.
pub proof fn matching_ignores_case_and_dots(
    suffixes: Seq<Seq<char>>,
    host: Seq<char>,
    other: Seq<char>,
)
    requires
        normalized(host) == normalized(other),
    ensures
        host_allowed(suffixes, host) == host_allowed(suffixes, other),
        normalized(host.push('.')) == normalized(host),
{
    assert(host.push('.').drop_last() =~= host);
}

/// A host in any letter case is compared in lower case, and one without a dot at its
/// end is compared letter by letter.
pub proof fn hosts_are_compared_in_lower_case(host: Seq<char>)
    requires
        host.len() > 0,
        host.last() != '.',
    ensures
        normalized(host).len() == host.len(),
        forall|i: int|
            0 <= i < host.len() ==> (#[trigger] normalized(host)[i]) == (if 'A' <= host[i]
                <= 'Z' {
                (host[i] as int + 32) as char
            } else {
                host[i]
            }),
{
}

/// A suffix covers itself and every name below it, and a host is allowed as soon
/// as one of the suffixes covers it.
pub proof fn names_below_a_suffix_are_allowed(
    suffixes: Seq<Seq<char>>,
    at: int,
    labels: Seq<char>,
    host: Seq<char>,
)
    requires
        0 <= at < suffixes.len(),
        normalized(host) == suffixes[at] || normalized(host) == labels.push('.') + suffixes[at],
    ensures
        host_allowed(suffixes, host),
{
    let suffix = suffixes[at];
    let name = normalized(host);
    if name != suffix {
        assert(name.skip(name.len() - suffix.len()) =~= suffix);
        assert(name[name.len() - suffix.len() - 1] == '.');
    }
    assert(under_suffix(name, suffixes[at]));
}

/// No suffix allows no host, and a host that none of the suffixes covers is
/// refused.
pub proof fn uncovered_hosts_are_refused(suffixes: Seq<Seq<char>>, host: Seq<char>)
    requires
        forall|i: int|
            0 <= i < suffixes.len() ==> normalized(host) != #[trigger] suffixes[i] && (normalized(
                host,
            ).len() <= suffixes[i].len() || normalized(host)[normalized(host).len()
                - suffixes[i].len() - 1] != '.' || normalized(host).skip(
                normalized(host).len() - suffixes[i].len(),
            ) != suffixes[i]),
    ensures
        !host_allowed(suffixes, host),
{
}

/// A name that merely ends in the letters of a suffix, without a dot before
/// them, is not covered by it; nor is one that is shorter.
pub proof fn look_alikes_are_refused(host: Seq<char>, suffix: Seq<char>)
    requires
        host != suffix,
        host.len() <= suffix.len() || host[host.len() - suffix.len() - 1] != '.',
    ensures
        !under_suffix(host, suffix),
{
}

} // verus!
