//! The version arithmetic behind the server-download redirects: parsing a
//! dotted version, printing it back, and building the upstream URLs. The
//! HTTP calls that feed these functions live outside the library.
use vstd::prelude::*;

use vstd::string::StringExecFns;

verus! {

/// A game version: major, minor and patch numbers.
#[derive(Debug, Clone, Copy, PartialEq, Eq, Structural)]
pub struct MCVersion(pub u8, pub u8, pub u8);

/// Decimal digits.
pub open spec fn is_digit(c: char) -> bool {
    '0' <= c && c <= '9'
}

/// The numeric value of a decimal digit.
pub open spec fn digit_val(c: char) -> int {
    c as u32 - '0' as u32
}

/// The digit character of a value below ten.
pub open spec fn digit_char(d: int) -> char {
    ((48 + d) as u8) as char
}

/// The numeric value of a digit string, most significant first.
pub open spec fn digits_val(s: Seq<char>) -> int
    decreases s.len(),
{
    if s.len() == 0 {
        0
    } else {
        digits_val(s.drop_last()) * 10 + digit_val(s[s.len() - 1])
    }
}

/// A non-empty string of decimal digits.
pub open spec fn all_digits(s: Seq<char>) -> bool {
    s.len() > 0 && forall|i: int| 0 <= i < s.len() ==> is_digit(#[trigger] s[i])
}

/// The digits of a string once an optional leading plus sign is dropped, as
/// the standard unsigned parse accepts it.
pub open spec fn digits_part(s: Seq<char>) -> Seq<char> {
    if s.len() > 0 && s[0] == '+' {
        s.drop_first()
    } else {
        s
    }
}

/// The byte value a string denotes: its digits (after an optional plus sign)
/// read in decimal, if they are digits and the value fits.
pub open spec fn spec_parse_u8(s: Seq<char>) -> Option<u8> {
    let d = digits_part(s);
    if all_digits(d) && digits_val(d) <= 255 {
        Some(digits_val(d) as u8)
    } else {
        None
    }
}

proof fn lemma_digits_val_nonneg(s: Seq<char>)
    requires
        forall|i: int| 0 <= i < s.len() ==> is_digit(#[trigger] s[i]),
    ensures
        digits_val(s) >= 0,
    decreases s.len(),
{
    if s.len() > 0 {
        lemma_digits_val_nonneg(s.drop_last());
    }
}

proof fn lemma_digits_val_grows(s: Seq<char>, k: int)
    requires
        1 <= k <= s.len(),
        forall|i: int| 0 <= i < s.len() ==> is_digit(#[trigger] s[i]),
        digits_val(s.take(k)) > 255,
    ensures
        digits_val(s) > 255,
    decreases s.len() - k,
{
    if k == s.len() {
        assert(s.take(k) =~= s);
    } else {
        assert(s.take(k + 1).drop_last() =~= s.take(k));
        assert(s.take(k + 1)[k] == s[k]);
        lemma_digits_val_grows(s, k + 1);
    }
}

fn digit_of(c: char) -> (r: Option<u8>)
    ensures
        match r {
            Some(d) => is_digit(c) && d as int == digit_val(c) && d < 10,
            None => !is_digit(c),
        },
{
    if '0' <= c && c <= '9' {
        Some((c as u32 - '0' as u32) as u8)
    } else {
        None
    }
}

fn parse_u8_chars(d: &Vec<char>) -> (r: Option<u8>)
    ensures
        r == spec_parse_u8(d@),
{
    let start: usize = if d.len() > 0 && d[0] == '+' {
        1
    } else {
        0
    };
    let ghost dd = digits_part(d@);
    proof {
        assert(dd =~= d@.subrange(start as int, d@.len() as int));
    }
    let n = d.len();
    if n == start {
        return None;
    }
    let mut acc: u32 = 0;
    let mut i = start;
    while i < n
        invariant
            start <= i <= n,
            n == d@.len(),
            dd == digits_part(d@),
            dd =~= d@.subrange(start as int, d@.len() as int),
            forall|k: int| start <= k < i ==> is_digit(#[trigger] d@[k]),
            acc <= 255,
            acc as int == digits_val(d@.subrange(start as int, i as int)),
        decreases n - i,
    {
        let c = d[i];
        let dig: u8 = match digit_of(c) {
            Some(g) => g,
            None => {
                proof {
                    assert(dd[i - start] == d@[i as int]);
                    assert(!all_digits(dd));
                }
                return None;
            },
        };
        let next: u32 = acc * 10 + dig as u32;
        proof {
            assert(d@.subrange(start as int, i + 1 as int) =~= d@.subrange(
                start as int,
                i as int,
            ).push(d@[i as int]));
            assert(d@.subrange(start as int, i + 1 as int).drop_last() =~= d@.subrange(
                start as int,
                i as int,
            ));
        }
        if next > 255 {
            proof {
                if all_digits(dd) {
                    assert(dd.take(i + 1 - start) =~= d@.subrange(start as int, i + 1 as int));
                    assert(digits_val(dd.take(i + 1 - start)) == next as int);
                    lemma_digits_val_grows(dd, i + 1 - start);
                }
            }
            return None;
        }
        acc = next;
        i += 1;
    }
    proof {
        assert(dd =~= d@.subrange(start as int, n as int));
        assert(all_digits(dd));
        assert(digits_val(dd) == acc as int);
    }
    Some(acc as u8)
}

/// Index of the first occurrence of `c` at or after `i` (`s.len()` if there
/// is none).
pub open spec fn find_char(s: Seq<char>, c: char, i: int) -> int
    decreases s.len() - i,
{
    if 0 <= i < s.len() {
        if s[i] == c {
            i
        } else {
            find_char(s, c, i + 1)
        }
    } else {
        s.len() as int
    }
}

fn scan_char(s: &Vec<char>, c: char, i: usize) -> (j: usize)
    requires
        i <= s@.len(),
    ensures
        j as int == find_char(s@, c, i as int),
        i <= j <= s@.len(),
{
    let n = s.len();
    let mut j = i;
    while j < n
        invariant
            i <= j <= n,
            n == s@.len(),
            find_char(s@, c, i as int) == find_char(s@, c, j as int),
        ensures
            j as int == find_char(s@, c, i as int),
            j <= n,
        decreases n - j,
    {
        if s[j] == c {
            break ;
        }
        j += 1;
    }
    j
}

/// The version a dotted string denotes: a major and a minor number separated
/// by a dot are required, a patch number after a second dot is optional and
/// defaults to zero, and anything after a third dot is ignored.
pub open spec fn spec_parse_version(s: Seq<char>) -> Option<MCVersion> {
    let p1 = find_char(s, '.', 0);
    if p1 == s.len() {
        None
    } else {
        match spec_parse_u8(s.subrange(0, p1)) {
            Some(maj) => {
                let p2 = find_char(s, '.', p1 + 1);
                match spec_parse_u8(s.subrange(p1 + 1, p2)) {
                    Some(min) => {
                        if p2 == s.len() {
                            Some(MCVersion(maj, min, 0))
                        } else {
                            let p3 = find_char(s, '.', p2 + 1);
                            match spec_parse_u8(s.subrange(p2 + 1, p3)) {
                                Some(pat) => Some(MCVersion(maj, min, pat)),
                                None => None,
                            }
                        }
                    },
                    None => None,
                }
            },
            None => None,
        }
    }
}

impl MCVersion {
    /// Read a version from its dotted form; any string that does not denote
    /// one is rejected with the fixed error text.
    pub fn from_str(s: &str) -> (r: Result<MCVersion, String>)
        ensures
            match spec_parse_version(s@) {
                Some(v) => r matches Ok(x) && x == v,
                None => r matches Err(e) && e@ == "Invalid MC Version"@,
            },
    {
        let chars = crate::text::chars_of(s);
        let n = chars.len();
        let p1 = scan_char(&chars, '.', 0);
        if p1 == n {
            return Err(String::from_str("Invalid MC Version"));
        }
        let part1 = crate::text::copy_range(&chars, 0, p1);
        let maj = match parse_u8_chars(&part1) {
            Some(m) => m,
            None => {
                return Err(String::from_str("Invalid MC Version"));
            },
        };
        let p2 = scan_char(&chars, '.', p1 + 1);
        let part2 = crate::text::copy_range(&chars, p1 + 1, p2);
        let min = match parse_u8_chars(&part2) {
            Some(m) => m,
            None => {
                return Err(String::from_str("Invalid MC Version"));
            },
        };
        if p2 == n {
            return Ok(MCVersion(maj, min, 0));
        }
        let p3 = scan_char(&chars, '.', p2 + 1);
        let part3 = crate::text::copy_range(&chars, p2 + 1, p3);
        match parse_u8_chars(&part3) {
            Some(pat) => Ok(MCVersion(maj, min, pat)),
            None => Err(String::from_str("Invalid MC Version")),
        }
    }

    /// Print the version in its dotted form: the patch number appears only
    /// when it is not zero.
    pub fn version_string(&self) -> (r: String)
        ensures
            r@ == spec_version_chars(*self),
    {
        let mut out: Vec<char> = Vec::new();
        push_u64_dec(&mut out, self.0 as u64);
        let ghost s1 = out@;
        out.push('.');
        assert(out@ =~= s1 + seq!['.']);
        push_u64_dec(&mut out, self.1 as u64);
        if self.2 != 0 {
            let ghost s2 = out@;
            out.push('.');
            assert(out@ =~= s2 + seq!['.']);
            push_u64_dec(&mut out, self.2 as u64);
        }
        assert(out@ =~= spec_version_chars(*self));
        crate::text::string_from_chars(&out)
    }
}

/// The decimal digits of a non-negative number, most significant first.
pub open spec fn u64_dec(n: int) -> Seq<char>
    decreases n,
{
    if n < 10 {
        seq![digit_char(n)]
    } else {
        u64_dec(n / 10).push(digit_char(n % 10))
    }
}

/// The dotted form of a version: the patch number appears only when it is
/// not zero.
pub open spec fn spec_version_chars(v: MCVersion) -> Seq<char> {
    let base = u64_dec(v.0 as int) + seq!['.'] + u64_dec(v.1 as int);
    if v.2 != 0 {
        base + seq!['.'] + u64_dec(v.2 as int)
    } else {
        base
    }
}

fn digit_to_char(d: u8) -> (c: char)
    requires
        d < 10,
    ensures
        c == digit_char(d as int),
{
    (48 + d) as char
}

/// Append the decimal digits of `n`.
fn push_u64_dec(out: &mut Vec<char>, n: u64)
    ensures
        final(out)@ == old(out)@ + u64_dec(n as int),
{
    let mut rev: Vec<char> = Vec::new();
    let mut m = n;
    while m >= 10
        invariant
            u64_dec(n as int) == u64_dec(m as int) + rev@.reverse(),
        decreases m,
    {
        let ghost old_rev = rev@;
        let d = (m % 10) as u8;
        rev.push(digit_to_char(d));
        proof {
            assert(u64_dec(m as int) == u64_dec(m as int / 10).push(digit_char(m as int % 10)));
            assert(rev@.reverse() =~= seq![digit_char(m as int % 10)] + old_rev.reverse());
            assert(u64_dec(m as int / 10).push(digit_char(m as int % 10)) + old_rev.reverse()
                =~= u64_dec(m as int / 10) + (seq![digit_char(m as int % 10)] + old_rev.reverse()));
        }
        m = m / 10;
    }
    let ghost old_rev = rev@;
    rev.push(digit_to_char(m as u8));
    proof {
        assert(u64_dec(m as int) == seq![digit_char(m as int)]);
        assert(rev@.reverse() =~= seq![digit_char(m as int)] + old_rev.reverse());
        assert(u64_dec(n as int) =~= rev@.reverse());
    }
    let total = rev.len();
    let ghost base = out@;
    let mut k = total;
    while k > 0
        invariant
            0 <= k <= total,
            total == rev@.len(),
            u64_dec(n as int) == rev@.reverse(),
            out@ == base + rev@.reverse().take(total - k as int),
        decreases k,
    {
        let ghost pre = out@;
        out.push(rev[k - 1]);
        proof {
            assert(rev@.reverse()[total - k as int] == rev@[k - 1]);
            assert(rev@.reverse().take(total - k + 1 as int) =~= rev@.reverse().take(
                total - k as int,
            ).push(rev@[k - 1]));
            assert(out@ =~= base + rev@.reverse().take(total - k + 1 as int));
        }
        k -= 1;
    }
    proof {
        assert(rev@.reverse().take(total as int) =~= rev@.reverse());
    }
}

/// The upstream jar filename for a version and a build number.
pub open spec fn spec_jar_name(v: MCVersion, build: int) -> Seq<char> {
    "paper-"@ + spec_version_chars(v) + "-"@ + u64_dec(build) + ".jar"@
}

/// The upstream download URL for a version and a build number.
pub open spec fn spec_download_url(v: MCVersion, build: int) -> Seq<char> {
    "https://papermc.io/api/v2/projects/paper/versions/"@ + spec_version_chars(v) + "/builds/"@
        + u64_dec(build) + "/downloads/"@ + spec_jar_name(v, build)
}

/// Build the URL under which the upstream API describes one version.
pub fn version_url(ver: &MCVersion) -> (r: String)
    ensures
        r@ == "https://papermc.io/api/v2/projects/paper/versions/"@ + spec_version_chars(*ver),
{
    let mut u = String::from_str("https://papermc.io/api/v2/projects/paper/versions/");
    let vs = ver.version_string();
    u.append(vs.as_str());
    u
}

/// Build the download URL for one version and one build number.
pub fn download_url(ver: &MCVersion, build: u32) -> (r: String)
    ensures
        r@ == spec_download_url(*ver, build as int),
{
    let vs = ver.version_string();
    let mut bchars: Vec<char> = Vec::new();
    push_u64_dec(&mut bchars, build as u64);
    let bs = crate::text::string_from_chars(&bchars);
    let mut u = String::from_str("https://papermc.io/api/v2/projects/paper/versions/");
    u.append(vs.as_str());
    u.append("/builds/");
    u.append(bs.as_str());
    u.append("/downloads/");
    u.append("paper-");
    u.append(vs.as_str());
    u.append("-");
    u.append(bs.as_str());
    u.append(".jar");
    proof {
        assert(u@ =~= spec_download_url(*ver, build as int));
    }
    u
}

/// Decide the outcome of a version lookup, given what the upstream answer
/// held: a reported error is passed through, else the last listed build
/// names the download, and an answer with neither is itself an error.
pub fn resolve_version_response(
    ver: &MCVersion,
    error: Option<String>,
    builds: Option<Vec<u32>>,
) -> (r: Result<String, String>)
    requires
        builds matches Some(b) ==> b@.len() > 0,
    ensures
        match error {
            Some(e) => r matches Err(e2) && e2@ == e@,
            None => match builds {
                Some(b) => r matches Ok(u) && u@ == spec_download_url(
                    *ver,
                    b@[b@.len() - 1] as int,
                ),
                None => r matches Err(e2) && e2@ == "Invalid json response"@,
            },
        },
{
    match error {
        Some(e) => Err(e),
        None => match builds {
            Some(b) => {
                let build = b[b.len() - 1];
                Ok(download_url(ver, build))
            },
            None => Err(String::from_str("Invalid json response")),
        },
    }
}

/// Pick the newest version an upstream listing names: its last entry, read
/// as a dotted version.
pub fn pick_latest(versions: &Vec<String>) -> (r: Result<MCVersion, String>)
    requires
        versions@.len() > 0,
    ensures
        match spec_parse_version(versions@[versions@.len() - 1]@) {
            Some(v) => r matches Ok(x) && x == v,
            None => r matches Err(e) && e@ == "Invalid MC Version"@,
        },
{
    let last = &versions[versions.len() - 1];
    MCVersion::from_str(last.as_str())
}

} // verus!
