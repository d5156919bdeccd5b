//! Host names: validity, where the name to set comes from, and whether
//! it has to be set at all.

use vstd::prelude::*;
use vstd::utf8::encode_utf8;
use crate::text::{chars_of, str_eq, string_from_range, trim_bounds, trim_end_ws, trim_start_ws, trim_ws, unicode_ws};

verus! {

/// Scans a host name: whether the last character seen was a dot and
/// whether it was a hyphen (both at the start), or `None` once a
/// character is out of place (a dot after a dot or hyphen or at the
/// start, a hyphen after a dot or at the start, anything but ASCII
/// letters and digits otherwise).
pub open spec fn host_scan(s: Seq<char>) -> Option<(bool, bool)>
    decreases s.len(),
{
    if s.len() == 0 {
        Some((true, true))
    } else {
        match host_scan(s.drop_last()) {
            None => None,
            Some((dot, hyphen)) => {
                let c = s.last();
                if c == '.' {
                    if dot || hyphen { None } else { Some((true, false)) }
                } else if c == '-' {
                    if dot { None } else { Some((false, true)) }
                } else if !crate::text::ascii_alnum(c) {
                    None
                } else {
                    Some((false, false))
                }
            },
        }
    }
}

/// A valid host name: nonempty, at most 64 bytes, labels of ASCII letters
/// and digits joined by dots, with hyphens inside labels (not at their
/// start or end).
pub open spec fn valid_hostname(s: Seq<char>) -> bool {
    s.len() > 0 && encode_utf8(s).len() <= 64 && host_scan(s) == Some((false, false))
}

/// A host name (trimmed).
#[derive(Debug)]
pub struct Hostname {
    pub hostname: String,
}

/// The fallback host name.
pub const DEFAULT_HOSTNAME: &'static str = "localhost";

impl Hostname {
    /// The host name `hostname` without surrounding whitespace.
    pub fn new(hostname: &str) -> (h: Hostname)
        ensures
            h.hostname@ == trim_ws(hostname@),
    {
        let v = chars_of(hostname);
        assert(v@.subrange(0, v@.len() as int) =~= v@);
        let (a, b) = trim_bounds(&v, 0, v.len());
        Hostname { hostname: string_from_range(&v, a, b) }
    }

    /// The host name in `s`, if it is valid once trimmed.
    pub fn from_string(s: &str) -> (r: Option<Hostname>)
        ensures
            r matches Some(h) ==> h.hostname@ == trim_ws(trim_ws(s@)) && valid_hostname(h.hostname@),
            r is None ==> !valid_hostname(trim_ws(trim_ws(s@))),
    {
        let v = chars_of(s);
        assert(v@.subrange(0, v@.len() as int) =~= v@);
        let (a, b) = trim_bounds(&v, 0, v.len());
        let t = string_from_range(&v, a, b);
        let h = Hostname::new(t.as_str());
        if h.valid() {
            Some(h)
        } else {
            None
        }
    }

    /// Whether the host name is valid.
    pub fn valid(&self) -> (r: bool)
        ensures
            r == valid_hostname(self.hostname@),
    {
        let s = self.hostname.as_str();
        if s.is_empty() {
            return false;
        }
        if s.len() > 64 {
            return false;
        }
        let v = chars_of(s);
        let mut dot = true;
        let mut hyphen = true;
        let mut i: usize = 0;
        assert(v@.take(0) =~= Seq::<char>::empty());
        while i < v.len()
            invariant
                0 <= i <= v.len(),
                v@ == self.hostname@,
                host_scan(v@.take(i as int)) == Some((dot, hyphen)),
            decreases v.len() - i,
        {
            let c = v[i];
            assert(v@.take(i + 1).drop_last() =~= v@.take(i as int));
            if c == '.' {
                if dot || hyphen {
                    proof {
                        lemma_host_scan_stuck(v@, i as int + 1);
                    }
                    return false;
                }
                dot = true;
                hyphen = false;
            } else if c == '-' {
                if dot {
                    proof {
                        lemma_host_scan_stuck(v@, i as int + 1);
                    }
                    return false;
                }
                dot = false;
                hyphen = true;
            } else {
                if !crate::text::is_ascii_alnum(c) {
                    proof {
                        lemma_host_scan_stuck(v@, i as int + 1);
                    }
                    return false;
                }
                dot = false;
                hyphen = false;
            }
            i += 1;
        }
        assert(v@.take(i as int) =~= v@);
        proof {
            lemma_host_scan_ascii(v@);
            vstd::utf8::is_ascii_chars_encode_utf8(v@);
        }
        !dot && !hyphen
    }

    /// Two host names are equal when their texts are.
    pub fn eq(&self, other: &Hostname) -> (r: bool)
        ensures
            r == (self.hostname@ == other.hostname@),
    {
        str_eq(self.hostname.as_str(), other.hostname.as_str())
    }

    /// The host name's text.
    pub fn to_string(&self) -> (r: String)
        ensures
            r@ == self.hostname@,
    {
        self.hostname.clone()
    }

    /// The default host name: the `DEFAULT_HOSTNAME` of the os-release
    /// file where it is given and valid, else `localhost`.
    pub fn default_from(release_value: Option<&str>) -> (h: Hostname)
        ensures
            h.hostname@ == match release_value {
                Some(v) => if valid_hostname(trim_ws(trim_ws(v@))) {
                    trim_ws(trim_ws(v@))
                } else {
                    trim_ws(DEFAULT_HOSTNAME@)
                },
                None => trim_ws(DEFAULT_HOSTNAME@),
            },
    {
        if let Some(v) = release_value {
            if let Some(h) = Hostname::from_string(v) {
                return h;
            }
        }
        Hostname::new(DEFAULT_HOSTNAME)
    }
}

/// A name that the scan accepts so far is ASCII.
pub proof fn lemma_host_scan_ascii(s: Seq<char>)
    requires
        host_scan(s) is Some,
    ensures
        vstd::utf8::is_ascii_chars(s),
    decreases s.len(),
{
    if s.len() > 0 {
        lemma_host_scan_ascii(s.drop_last());
        assert forall|i: int| 0 <= i < s.len() implies '\0' <= #[trigger] s[i] <= '\u{7f}' by {
            if i < s.len() - 1 {
                assert(s[i] == s.drop_last()[i]);
            }
        }
    }
}

/// Once the scan has rejected a prefix, it rejects the whole name.
pub proof fn lemma_host_scan_stuck(s: Seq<char>, n: int)
    requires
        0 <= n <= s.len(),
        host_scan(s.take(n)) is None,
    ensures
        host_scan(s) is None,
    decreases s.len() - n,
{
    if n < s.len() {
        assert(s.take(n + 1).drop_last() =~= s.take(n));
        lemma_host_scan_stuck(s, n + 1);
    } else {
        assert(s.take(n) =~= s);
    }
}

/// The host name given on the kernel command line: the value of
/// `systemd.hostname`, or of `sysmaster.hostname` where the first is
/// missing or empty; valid once trimmed.
pub open spec fn cmdline_choice(systemd: Option<Seq<char>>, sysmaster: Option<Seq<char>>) -> Seq<char> {
    let first = match systemd { Some(v) => v, None => Seq::empty() };
    if first.len() > 0 { first } else { match sysmaster { Some(v) => v, None => Seq::empty() } }
}

/// The view of an optional string slice.
pub open spec fn str_opt(o: Option<&str>) -> Option<Seq<char>> {
    match o {
        Some(s) => Some(s@),
        None => None,
    }
}

/// The host name from the values of the two command line keys.
pub fn from_cmdline_values(systemd: Option<&str>, sysmaster: Option<&str>) -> (r: Option<Hostname>)
    ensures
        r matches Some(h) ==> h.hostname@ == trim_ws(trim_ws(cmdline_choice(str_opt(systemd), str_opt(sysmaster))))
            && valid_hostname(h.hostname@),
        r is None ==> !valid_hostname(trim_ws(trim_ws(cmdline_choice(str_opt(systemd), str_opt(sysmaster))))),
{
    let first = match systemd {
        Some(v) => v,
        None => "",
    };
    proof {
        reveal_strlit("");
    }
    let chosen = if !first.is_empty() {
        first
    } else {
        match sysmaster {
            Some(v) => v,
            None => "",
        }
    };
    assert(chosen@ == cmdline_choice(str_opt(systemd), str_opt(sysmaster)));
    Hostname::from_string(chosen)
}

/// What to do about the host name: `None` to leave it (no name was found
/// and one is already set), else the name to set (the found one, or the
/// default).
pub fn choose_hostname(found: Option<Hostname>, already_set: bool, default: Hostname) -> (r: Option<Hostname>)
    ensures
        found is None && already_set ==> r is None,
        found matches Some(h) ==> r == Some(h),
        found is None && !already_set ==> r == Some(default),
{
    match found {
        Some(h) => Some(h),
        None => if already_set {
            None
        } else {
            Some(default)
        },
    }
}

/// Whether `hostname` has to be written, given the current one: an
/// invalid name is an error, an equal one needs nothing.
pub fn needs_setting(hostname: &Hostname, local: &Hostname) -> (r: Result<bool, ()>)
    ensures
        !valid_hostname(hostname.hostname@) ==> r is Err,
        valid_hostname(hostname.hostname@) ==> r == Ok::<bool, ()>(hostname.hostname@ != local.hostname@),
{
    if !hostname.valid() {
        return Err(());
    }
    Ok(!local.eq(hostname))
}

/// The host name reads as set unless it is `(none)`.
pub fn hostname_is_set(local: Option<&Hostname>) -> (r: bool)
    ensures
        r == (local matches Some(h) && h.hostname@ != "(none)"@),
{
    match local {
        Some(h) => {
            let none = chars_of("(none)");
            let hv = chars_of(h.hostname.as_str());
            !crate::text::chars_eq(&hv, &none)
        },
        None => false,
    }
}

/// A name that the scan accepts holds no whitespace.
proof fn lemma_host_scan_no_ws(s: Seq<char>)
    requires
        host_scan(s) is Some,
    ensures
        forall|i: int| 0 <= i < s.len() ==> !unicode_ws(#[trigger] s[i]),
    decreases s.len(),
{
    if s.len() > 0 {
        lemma_host_scan_no_ws(s.drop_last());
        assert forall|i: int| 0 <= i < s.len() implies !unicode_ws(#[trigger] s[i]) by {
            if i < s.len() - 1 {
                assert(s[i] == s.drop_last()[i]);
            }
        }
    }
}

/// A valid host name is its own trimmed form: writing it out and reading
/// it back gives the same host name.
pub proof fn law_valid_hostname_round_trip(s: Seq<char>)
    requires
        valid_hostname(s),
    ensures
        trim_ws(trim_ws(s)) == s,
{
    lemma_host_scan_no_ws(s);
    assert(trim_start_ws(s) == s);
    assert(trim_end_ws(s) == s);
}

/// A character a host name may hold: an ASCII letter or digit, `.` or
/// `-`.
pub open spec fn host_char(c: char) -> bool {
    crate::text::ascii_alnum(c) || c == '.' || c == '-'
}

/// Position `i` of `s` starts a `..`, `.-` or `-.`.
pub open spec fn bad_pair_at(s: Seq<char>, i: int) -> bool {
    (s[i] == '.' && (s[i + 1] == '.' || s[i + 1] == '-')) || (s[i] == '-' && s[i + 1] == '.')
}

/// The shape of a valid host name, stated directly: one to 64
/// characters, each an ASCII letter or digit, `.` or `-`; the first and
/// the last a letter or digit; and no `..`, `.-` or `-.` in it.
pub open spec fn hostname_shape(s: Seq<char>) -> bool {
    &&& 1 <= s.len() <= 64
    &&& forall|i: int| 0 <= i < s.len() ==> host_char(#[trigger] s[i])
    &&& crate::text::ascii_alnum(s[0])
    &&& crate::text::ascii_alnum(s.last())
    &&& forall|i: int| 0 <= i < s.len() - 1 ==> !#[trigger] bad_pair_at(s, i)
}

proof fn lemma_host_scan_shape(s: Seq<char>)
    ensures
        host_scan(s) is Some <==> ((forall|i: int| 0 <= i < s.len() ==> host_char(#[trigger] s[i]))
            && (forall|i: int| 0 <= i < s.len() - 1 ==> !#[trigger] bad_pair_at(s, i))
            && (s.len() > 0 ==> crate::text::ascii_alnum(s[0]))),
        host_scan(s) is Some && s.len() > 0 ==> host_scan(s) == Some((s.last() == '.', s.last() == '-')),
    decreases s.len(),
{
    if s.len() > 0 {
        let q = s.drop_last();
        lemma_host_scan_shape(q);
        let c = s.last();
        assert forall|i: int| 0 <= i < q.len() implies q[i] == s[i] by {}
        if (forall|i: int| 0 <= i < s.len() ==> host_char(#[trigger] s[i]))
            && (forall|i: int| 0 <= i < s.len() - 1 ==> !#[trigger] bad_pair_at(s, i))
            && (s.len() > 0 ==> crate::text::ascii_alnum(s[0])) {
            assert forall|i: int| 0 <= i < q.len() implies host_char(#[trigger] q[i]) by {
                assert(host_char(s[i]));
            }
            assert forall|i: int| 0 <= i < q.len() - 1 implies !#[trigger] bad_pair_at(q, i) by {
                assert(!bad_pair_at(s, i));
            }
            assert(host_char(s[s.len() - 1]));
            if q.len() > 0 {
                assert(q[0] == s[0]);
                assert(!bad_pair_at(s, s.len() - 2));
                assert(q.last() == s[s.len() - 2]);
            }
        }
        if host_scan(s) is Some {
            assert(host_scan(q) is Some);
            assert forall|i: int| 0 <= i < s.len() implies host_char(#[trigger] s[i]) by {
                if i < q.len() {
                    assert(host_char(q[i]));
                }
            }
            assert forall|i: int| 0 <= i < s.len() - 1 implies !#[trigger] bad_pair_at(s, i) by {
                if i < q.len() - 1 {
                    assert(!bad_pair_at(q, i));
                } else {
                    assert(q.last() == s[i]);
                }
            }
            if q.len() > 0 {
                assert(q[0] == s[0]);
            }
        }
    }
}

/// Law: a host name is valid exactly when it has the shape of
/// [`hostname_shape`]: one to 64 characters, ASCII letters, digits, dots
/// and hyphens, beginning and ending with a letter or digit, with no
/// `..`, `.-` or `-.`.
pub proof fn law_hostname_shape(s: Seq<char>)
    ensures
        valid_hostname(s) == hostname_shape(s),
{
    lemma_host_scan_shape(s);
    if host_scan(s) is Some {
        assert(vstd::utf8::is_ascii_chars(s)) by {
            assert forall|i: int| 0 <= i < s.len() implies '\0' <= #[trigger] s[i] <= '\u{7f}' by {
                assert(host_char(s[i]));
            }
        }
        vstd::utf8::is_ascii_chars_encode_utf8(s);
    }
    if hostname_shape(s) {
        assert(s.last() == s[s.len() - 1]);
    }
}


/// Law: the kernel command line's host name is the value of
/// `systemd.hostname` where it is given and not empty, and otherwise the
/// value of `sysmaster.hostname`, also where `systemd.hostname` is not
/// given at all; with neither, it is empty.
pub proof fn law_cmdline_choice(systemd: Option<Seq<char>>, sysmaster: Option<Seq<char>>)
    ensures
        systemd is Some && systemd->Some_0.len() > 0 ==> cmdline_choice(systemd, sysmaster) == systemd->Some_0,
        systemd is None ==> cmdline_choice(systemd, sysmaster) == match sysmaster { Some(v) => v, None => Seq::<char>::empty() },
        systemd == Some(Seq::<char>::empty()) ==> cmdline_choice(systemd, sysmaster)
            == match sysmaster { Some(v) => v, None => Seq::<char>::empty() },
{
}

} // verus!
