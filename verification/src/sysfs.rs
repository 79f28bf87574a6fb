//! Reading the text the kernel exposes for GPUs: `key value` lines of the
//! KFD topology `properties` files, and the decimal counters of the DRM
//! sysfs (`mem_info_vram_total`, …), with the exact acceptance rules of the
//! standard integer parsers; and the ROCm target name inside a HIP device
//! property block.

use vstd::prelude::*;
use vstd::string::StrSliceExecFns;

use crate::platform::has_prefix;
use crate::text::push_char;

verus! {

// ---------------------------------------------------------------------------
// Lines
// ---------------------------------------------------------------------------

/// Index of the first `'\n'` at or after `i`, or the length when there is
/// none.
pub open spec fn next_newline(s: Seq<char>, i: int) -> int
    decreases s.len() - i,
{
    if i >= s.len() {
        s.len() as int
    } else if s[i] == '\n' {
        i
    } else {
        next_newline(s, i + 1)
    }
}

/// The line starting at `start`: up to the next newline, without the
/// carriage return of a `"\r\n"` ending.
pub open spec fn line_at(s: Seq<char>, start: int) -> Seq<char> {
    let e = next_newline(s, start);
    if e < s.len() && e > start && s[e - 1] == '\r' {
        s.subrange(start, e - 1)
    } else {
        s.subrange(start, e)
    }
}

/// The rest of the first line, at or after `start`, that begins with `key`.
pub open spec fn property_from(s: Seq<char>, key: Seq<char>, start: int) -> Option<Seq<char>>
    decreases s.len() + 1 - start,
{
    if start < 0 || start >= s.len() {
        None
    } else {
        let line = line_at(s, start);
        if has_prefix(line, key) {
            Some(line.subrange(key.len() as int, line.len() as int))
        } else {
            proof {
                lemma_next_newline_bounds(s, start);
            }
            property_from(s, key, next_newline(s, start) + 1)
        }
    }
}

/// The value of the first line of `s` that begins with `key` (the rest of
/// that line), lines split as `str::lines` splits them.
pub open spec fn spec_property(s: Seq<char>, key: Seq<char>) -> Option<Seq<char>> {
    property_from(s, key, 0)
}

pub proof fn lemma_next_newline_bounds(s: Seq<char>, i: int)
    requires
        0 <= i <= s.len(),
    ensures
        i <= next_newline(s, i) <= s.len(),
        next_newline(s, i) < s.len() ==> s[next_newline(s, i)] == '\n',
        forall|j: int| i <= j < next_newline(s, i) ==> s[j] != '\n',
    decreases s.len() - i,
{
    if i < s.len() && s[i] != '\n' {
        lemma_next_newline_bounds(s, i + 1);
    }
}

/// The characters of `s`, in a vector.
fn chars_of(s: &str) -> (r: Vec<char>)
    ensures
        r@ == s@,
{
    let n = s.unicode_len();
    let mut r: Vec<char> = Vec::new();
    let mut i: usize = 0;
    while i < n
        invariant
            n == s@.len(),
            i <= n,
            r@ == s@.subrange(0, i as int),
        decreases n - i,
    {
        r.push(s.get_char(i));
        i += 1;
        proof {
            assert(r@ =~= s@.subrange(0, i as int));
        }
    }
    proof {
        assert(r@ =~= s@);
    }
    r
}

/// The characters `from..to` of `v`, as a string.
fn string_of(v: &Vec<char>, from: usize, to: usize) -> (r: String)
    requires
        from <= to <= v.len(),
    ensures
        r@ == v@.subrange(from as int, to as int),
{
    let mut r = String::new();
    let mut i = from;
    while i < to
        invariant
            from <= i <= to <= v.len(),
            r@ == v@.subrange(from as int, i as int),
        decreases to - i,
    {
        push_char(&mut r, v[i]);
        i += 1;
        proof {
            assert(r@ =~= v@.subrange(from as int, i as int));
        }
    }
    r
}

/// Whether `v[at..]` begins with `key`.
fn prefix_at(v: &Vec<char>, at: usize, end: usize, key: &Vec<char>) -> (r: bool)
    requires
        at <= end <= v.len(),
    ensures
        r == has_prefix(v@.subrange(at as int, end as int), key@),
{
    if key.len() > end - at {
        return false;
    }
    let mut k: usize = 0;
    while k < key.len()
        invariant
            at <= end <= v.len(),
            key.len() <= end - at,
            k <= key.len(),
            forall|j: int| 0 <= j < k ==> v@[at + j] == key@[j],
        decreases key.len() - k,
    {
        if v[at + k] != key[k] {
            assert(v@.subrange(at as int, end as int).subrange(0, key@.len() as int)[k as int] != key@[k as int]);
            return false;
        }
        k += 1;
    }
    assert(v@.subrange(at as int, end as int).subrange(0, key@.len() as int) =~= key@);
    true
}

/// The value of the first line of `props` that begins with `key`: the rest
/// of that line (lines end at `'\n'` or `"\r\n"`).
pub fn property(props: &str, key: &str) -> (r: Option<String>)
    ensures
        match spec_property(props@, key@) {
            Some(v) => r is Some && r->0@ == v,
            None => r is None,
        },
{
    let v = chars_of(props);
    let kv = chars_of(key);
    let n = v.len();
    let mut start: usize = 0;
    while start < n
        invariant
            n == v.len(),
            v@ == props@,
            kv@ == key@,
            start <= n,
            spec_property(props@, key@) == property_from(props@, key@, start as int),
        decreases n - start,
    {
        let mut e = start;
        while e < n && v[e] != '\n'
            invariant
                n == v.len(),
                start <= e <= n,
                next_newline(v@, start as int) == next_newline(v@, e as int),
            decreases n - e,
        {
            e += 1;
        }
        proof {
            lemma_next_newline_bounds(v@, start as int);
        }
        let line_end = if e < n && e > start && v[e - 1] == '\r' { e - 1 } else { e };
        proof {
            assert(line_at(v@, start as int) =~= v@.subrange(start as int, line_end as int));
        }
        proof {
            assert(v@ == props@);
            assert(line_at(props@, start as int) == v@.subrange(start as int, line_end as int));
        }
        if prefix_at(&v, start, line_end, &kv) {
            let out = string_of(&v, start + kv.len(), line_end);
            proof {
                let line = v@.subrange(start as int, line_end as int);
                assert(line.subrange(kv@.len() as int, line.len() as int) =~= v@.subrange(
                    start + kv.len(),
                    line_end as int,
                ));
            }
            return Some(out);
        }
        proof {
            assert(property_from(props@, key@, start as int) == property_from(props@, key@, e + 1));
        }
        if e >= n {
            assert(property_from(props@, key@, e + 1) is None);
            return None;
        }
        start = e + 1;
    }
    None
}

// ---------------------------------------------------------------------------
// Integers
// ---------------------------------------------------------------------------

/// `char::is_whitespace`: the Unicode `White_Space` characters.
pub open spec fn is_whitespace(c: char) -> bool {
    let u = c as u32;
    (0x9 <= u <= 0xd) || u == 0x20 || u == 0x85 || u == 0xa0 || u == 0x1680 || (0x2000 <= u <= 0x200a)
        || u == 0x2028 || u == 0x2029 || u == 0x202f || u == 0x205f || u == 0x3000
}

fn whitespace(c: char) -> (r: bool)
    ensures
        r == is_whitespace(c),
{
    let u = c as u32;
    (0x9 <= u && u <= 0xd) || u == 0x20 || u == 0x85 || u == 0xa0 || u == 0x1680 || (0x2000 <= u && u
        <= 0x200a) || u == 0x2028 || u == 0x2029 || u == 0x202f || u == 0x205f || u == 0x3000
}

/// Number of leading whitespace characters of `s[i..]`.
pub open spec fn leading_ws(s: Seq<char>, i: int) -> int
    decreases s.len() - i,
{
    if i >= s.len() || !is_whitespace(s[i]) {
        0
    } else {
        1 + leading_ws(s, i + 1)
    }
}

/// Number of trailing whitespace characters of `s[..j]`.
pub open spec fn trailing_ws(s: Seq<char>, j: int) -> int
    decreases j,
{
    if j <= 0 || !is_whitespace(s[j - 1]) {
        0
    } else {
        1 + trailing_ws(s, j - 1)
    }
}

/// `str::trim`: `s` without leading and trailing whitespace.
pub open spec fn spec_trim(s: Seq<char>) -> Seq<char> {
    let a = leading_ws(s, 0);
    if a >= s.len() {
        Seq::empty()
    } else {
        s.subrange(a, s.len() - trailing_ws(s, s.len() as int))
    }
}

/// `trim_start_matches("0x")`: `s` without every leading `"0x"`.
pub open spec fn strip_hex_prefixes(s: Seq<char>) -> Seq<char>
    decreases s.len(),
{
    if s.len() >= 2 && s[0] == '0' && s[1] == 'x' {
        strip_hex_prefixes(s.subrange(2, s.len() as int))
    } else {
        s
    }
}

/// The value of digit `c` in `radix` (10 or 16, either case), if it is one.
pub open spec fn digit_value(c: char, radix: nat) -> Option<nat> {
    let u = c as u32;
    if 0x30 <= u <= 0x39 && (u - 0x30) < radix {
        Some((u - 0x30) as nat)
    } else if 0x61 <= u <= 0x66 && radix == 16 {
        Some((u - 0x61 + 10) as nat)
    } else if 0x41 <= u <= 0x46 && radix == 16 {
        Some((u - 0x41 + 10) as nat)
    } else {
        None
    }
}

/// The value of the digit string `d` (most significant first) in `radix`,
/// if every character is a digit.
pub open spec fn digits_value(d: Seq<char>, radix: nat) -> Option<nat>
    decreases d.len(),
{
    if d.len() == 0 {
        Some(0)
    } else {
        match (digits_value(d.drop_last(), radix), digit_value(d.last(), radix)) {
            (Some(hi), Some(lo)) => Some(hi * radix + lo),
            _ => None,
        }
    }
}

/// `from_str_radix` of an unsigned integer type whose largest value is
/// `max`: an optional `+`, then at least one digit, no other character, and
/// a value not above `max`.
pub open spec fn spec_parse_unsigned(s: Seq<char>, radix: nat, max: nat) -> Option<nat> {
    let d = if s.len() > 0 && s[0] == '+' { s.subrange(1, s.len() as int) } else { s };
    if d.len() == 0 {
        None
    } else {
        match digits_value(d, radix) {
            Some(v) if v <= max => Some(v),
            _ => None,
        }
    }
}

fn digit(c: char, radix: u64) -> (r: Option<u64>)
    requires
        radix == 10 || radix == 16,
    ensures
        match digit_value(c, radix as nat) {
            Some(v) => r == Some(v as u64),
            None => r is None,
        },
{
    let u = c as u32;
    if 0x30 <= u && u <= 0x39 && ((u - 0x30) as u64) < radix {
        Some((u - 0x30) as u64)
    } else if 0x61 <= u && u <= 0x66 && radix == 16 {
        Some((u - 0x61 + 10) as u64)
    } else if 0x41 <= u && u <= 0x46 && radix == 16 {
        Some((u - 0x41 + 10) as u64)
    } else {
        None
    }
}

proof fn lemma_digits_grow(d: Seq<char>, radix: nat)
    requires
        radix >= 2,
        d.len() > 0,
        digits_value(d, radix) is Some,
    ensures
        digits_value(d.drop_last(), radix) is Some,
        digits_value(d.drop_last(), radix)->0 <= digits_value(d, radix)->0,
{
    let hi = digits_value(d.drop_last(), radix)->0;
    assert(hi <= hi * radix) by (nonlinear_arith)
        requires
            radix >= 2,
    ;
}

proof fn lemma_digits_monotone(d: Seq<char>, radix: nat, i: int)
    requires
        radix >= 2,
        0 <= i <= d.len(),
        digits_value(d, radix) is Some,
    ensures
        digits_value(d.subrange(0, i), radix) is Some,
        digits_value(d.subrange(0, i), radix)->0 <= digits_value(d, radix)->0,
    decreases d.len() - i,
{
    if i == d.len() {
        assert(d.subrange(0, i) =~= d);
    } else {
        lemma_digits_grow(d, radix);
        lemma_digits_monotone(d.drop_last(), radix, i);
        assert(d.drop_last().subrange(0, i) =~= d.subrange(0, i));
    }
}

/// Parse `v[from..to]` as `from_str_radix` does for an unsigned type whose
/// largest value is `max`.
fn parse_unsigned(v: &Vec<char>, from: usize, to: usize, radix: u64, max: u64) -> (r: Option<u64>)
    requires
        from <= to <= v.len(),
        radix == 10 || radix == 16,
    ensures
        match spec_parse_unsigned(v@.subrange(from as int, to as int), radix as nat, max as nat) {
            Some(x) => r == Some(x as u64),
            None => r is None,
        },
{
    let ghost s = v@.subrange(from as int, to as int);
    let start = if from < to && v[from] == '+' { from + 1 } else { from };
    let ghost d = v@.subrange(start as int, to as int);
    proof {
        assert(d =~= (if s.len() > 0 && s[0] == '+' { s.subrange(1, s.len() as int) } else { s }));
    }
    if start == to {
        return None;
    }
    let mut acc: u64 = 0;
    let mut i = start;
    while i < to
        invariant
            from <= start <= i <= to <= v.len(),
            start < to,
            radix == 10 || radix == 16,
            s == v@.subrange(from as int, to as int),
            d == v@.subrange(start as int, to as int),
            d == (if s.len() > 0 && s[0] == '+' { s.subrange(1, s.len() as int) } else { s }),
            digits_value(d.subrange(0, i - start), radix as nat) == Some(acc as nat),
            acc <= max,
        decreases to - i,
    {
        let ghost prefix = d.subrange(0, i - start + 1);
        proof {
            assert(prefix.drop_last() =~= d.subrange(0, i - start));
            assert(prefix.last() == v@[i as int]);
        }
        let dv = match digit(v[i], radix) {
            Some(x) => x,
            None => {
                proof {
                    assert(digits_value(prefix, radix as nat) is None);
                    if digits_value(d, radix as nat) is Some {
                        lemma_digits_monotone(d, radix as nat, i - start + 1);
                    }
                }
                return None;
            },
        };
        // acc * radix + dv <= max, else the value exceeds max.
        let next: Option<u64> = match acc.checked_mul(radix) {
            Some(m) => m.checked_add(dv),
            None => None,
        };
        let next_v: u64 = match next {
            Some(x) if x <= max => x,
            _ => {
                proof {
                    assert(digits_value(prefix, radix as nat) == Some((acc * radix + dv) as nat));
                    assert(acc * radix + dv > max);
                    if digits_value(d, radix as nat) is Some {
                        lemma_digits_monotone(d, radix as nat, i - start + 1);
                    }
                }
                return None;
            },
        };
        acc = next_v;
        i += 1;
    }
    proof {
        assert(d.subrange(0, to - start) =~= d);
    }
    Some(acc)
}

/// `trim` of `v[from..to]`, as a range.
fn trim_range(v: &Vec<char>, from: usize, to: usize) -> (r: (usize, usize))
    requires
        from <= to <= v.len(),
    ensures
        from <= r.0 <= r.1 <= to,
        v@.subrange(r.0 as int, r.1 as int) == spec_trim(v@.subrange(from as int, to as int)),
{
    let ghost s = v@.subrange(from as int, to as int);
    let mut a = from;
    while a < to && whitespace(v[a])
        invariant
            from <= a <= to <= v.len(),
            s == v@.subrange(from as int, to as int),
            leading_ws(s, 0) == (a - from) + leading_ws(s, a - from),
        decreases to - a,
    {
        a += 1;
    }
    proof {
        assert(leading_ws(s, a - from) == 0);
    }
    if a == to {
        assert(spec_trim(s) =~= v@.subrange(a as int, a as int));
        return (a, a);
    }
    let mut b = to;
    while b > a && whitespace(v[b - 1])
        invariant
            from <= a < to <= v.len(),
            a < b <= to,
            s == v@.subrange(from as int, to as int),
            !is_whitespace(v@[a as int]),
            trailing_ws(s, s.len() as int) == (to - b) + trailing_ws(s, b - from),
        decreases b,
    {
        b -= 1;
    }
    proof {
        assert(trailing_ws(s, b - from) == 0);
        assert(spec_trim(s) =~= v@.subrange(a as int, b as int));
    }
    (a, b)
}

/// `s.trim().parse::<u64>()`: a decimal counter of the DRM sysfs.
pub fn parse_counter(s: &str) -> (r: Option<u64>)
    ensures
        match spec_parse_unsigned(spec_trim(s@), 10, u64::MAX as nat) {
            Some(x) => r == Some(x as u64),
            None => r is None,
        },
{
    let v = chars_of(s);
    let (a, b) = trim_range(&v, 0, v.len());
    proof {
        assert(v@.subrange(0, v@.len() as int) =~= s@);
    }
    parse_unsigned(&v, a, b, 10, u64::MAX)
}

/// `s.trim().parse::<u32>()`: a small decimal number of a properties file.
pub fn parse_u32(s: &str) -> (r: Option<u32>)
    ensures
        match spec_parse_unsigned(spec_trim(s@), 10, u32::MAX as nat) {
            Some(x) => r == Some(x as u32),
            None => r is None,
        },
{
    let v = chars_of(s);
    let (a, b) = trim_range(&v, 0, v.len());
    proof {
        assert(v@.subrange(0, v@.len() as int) =~= s@);
    }
    match parse_unsigned(&v, a, b, 10, u32::MAX as u64) {
        Some(x) => Some(x as u32),
        None => None,
    }
}

/// `u32::from_str_radix(s.trim().trim_start_matches("0x"), 16)`: a KFD
/// `gfx_target_version`.
pub fn parse_hex_u32(s: &str) -> (r: Option<u32>)
    ensures
        match spec_parse_unsigned(strip_hex_prefixes(spec_trim(s@)), 16, u32::MAX as nat) {
            Some(x) => r == Some(x as u32),
            None => r is None,
        },
{
    let v = chars_of(s);
    let (a0, b) = trim_range(&v, 0, v.len());
    proof {
        assert(v@.subrange(0, v@.len() as int) =~= s@);
    }
    let mut a = a0;
    while b - a >= 2 && v[a] == '0' && v[a + 1] == 'x'
        invariant
            a0 <= a <= b <= v.len(),
            strip_hex_prefixes(v@.subrange(a0 as int, b as int)) == strip_hex_prefixes(
                v@.subrange(a as int, b as int),
            ),
        decreases b - a,
    {
        proof {
            assert(v@.subrange(a as int, b as int).subrange(2, (b - a) as int) =~= v@.subrange(
                a + 2,
                b as int,
            ));
        }
        a += 2;
    }
    proof {
        let t = v@.subrange(a as int, b as int);
        assert(!(t.len() >= 2 && t[0] == '0' && t[1] == 'x'));
    }
    match parse_unsigned(&v, a, b, 16, u32::MAX as u64) {
        Some(x) => Some(x as u32),
        None => None,
    }
}

/// The `gfx_target_version` of a KFD node's properties, if present and
/// well-formed.
pub fn kfd_target_version(props: &str) -> (r: Option<u32>)
    ensures
        match spec_property(props@, "gfx_target_version "@) {
            Some(v) => match spec_parse_unsigned(strip_hex_prefixes(spec_trim(v)), 16, u32::MAX as nat) {
                Some(x) => r == Some(x as u32),
                None => r is None,
            },
            None => r is None,
        },
{
    match property(props, "gfx_target_version ") {
        Some(v) => parse_hex_u32(v.as_str()),
        None => None,
    }
}

/// The `drm_render_minor` of a KFD node's properties, if present and
/// well-formed.
pub fn kfd_render_minor(props: &str) -> (r: Option<u32>)
    ensures
        match spec_property(props@, "drm_render_minor "@) {
            Some(v) => match spec_parse_unsigned(spec_trim(v), 10, u32::MAX as nat) {
                Some(x) => r == Some(x as u32),
                None => r is None,
            },
            None => r is None,
        },
{
    match property(props, "drm_render_minor ") {
        Some(v) => parse_u32(v.as_str()),
        None => None,
    }
}

// ---------------------------------------------------------------------------
// HIP device properties
// ---------------------------------------------------------------------------

/// An ASCII letter or digit.
pub open spec fn is_ascii_alnum(b: u8) -> bool {
    (0x30 <= b <= 0x39) || (0x41 <= b <= 0x5a) || (0x61 <= b <= 0x7a)
}

/// Length of the run of ASCII letters and digits starting at `i`.
pub open spec fn alnum_run(p: Seq<u8>, i: int) -> int
    decreases p.len() - i,
{
    if i < 0 || i >= p.len() || !is_ascii_alnum(p[i]) {
        0
    } else {
        1 + alnum_run(p, i + 1)
    }
}

/// `gfx` at `start`, followed by letters and digits among which a digit.
pub open spec fn is_gcn_name_at(p: Seq<u8>, start: int) -> bool {
    &&& 0 <= start
    &&& start + 3 <= p.len()
    &&& p[start] == 0x67 && p[start + 1] == 0x66 && p[start + 2] == 0x78
    &&& exists|j: int|
        start + 3 <= j < start + 3 + alnum_run(p, start + 3) && 0x30 <= #[trigger] p[j] <= 0x39
}

/// The characters of ASCII bytes.
pub open spec fn ascii_text(b: Seq<u8>) -> Seq<char> {
    Seq::new(b.len(), |i: int| b[i] as char)
}

/// The ROCm target inside a HIP device property block (`gcnArchName`, e.g.
/// `gfx1201`): the first `gfx` followed by letters and digits that include a
/// digit, with those letters and digits.
pub fn gcn_target(props: &[u8]) -> (r: Option<String>)
    ensures
        (forall|s: int| !#[trigger] is_gcn_name_at(props@, s)) ==> r is None,
        forall|s: int|
            #[trigger] is_gcn_name_at(props@, s) && (forall|t: int| 0 <= t < s ==> !is_gcn_name_at(props@, t))
                ==> r is Some && r->0@ == ascii_text(props@.subrange(s, s + 3 + alnum_run(props@, s + 3))),
{
    let n = props.len();
    let mut start: usize = 0;
    while n >= 3 && start <= n - 3
        invariant
            n == props@.len(),
            forall|t: int| 0 <= t < start ==> !is_gcn_name_at(props@, t),
        decreases n - start,
    {
        if props[start] == 0x67 && props[start + 1] == 0x66 && props[start + 2] == 0x78 {
            let mut e = start + 3;
            let mut digit = false;
            while e < n && ((0x30 <= props[e] && props[e] <= 0x39) || (0x41 <= props[e] && props[e] <= 0x5a)
                || (0x61 <= props[e] && props[e] <= 0x7a))
                invariant
                    n == props@.len(),
                    start + 3 <= e <= n,
                    alnum_run(props@, start + 3) == (e - start - 3) + alnum_run(props@, e as int),
                    digit <==> exists|j: int| start + 3 <= j < e && 0x30 <= #[trigger] props@[j] <= 0x39,
                decreases n - e,
            {
                if props[e] <= 0x39 {
                    digit = true;
                }
                e += 1;
            }
            proof {
                assert(alnum_run(props@, e as int) == 0);
            }
            if digit {
                let mut s = String::new();
                let mut i = start;
                while i < e
                    invariant
                        start <= i <= e <= n,
                        n == props@.len(),
                        s@ == ascii_text(props@.subrange(start as int, i as int)),
                    decreases e - i,
                {
                    push_char(&mut s, props[i] as char);
                    i += 1;
                    proof {
                        assert(s@ =~= ascii_text(props@.subrange(start as int, i as int)));
                    }
                }
                proof {
                    assert(is_gcn_name_at(props@, start as int));
                }
                return Some(s);
            }
            proof {
                assert(!is_gcn_name_at(props@, start as int));
            }
        }
        start += 1;
    }
    proof {
        assert forall|s: int| !#[trigger] is_gcn_name_at(props@, s) by {
            if s >= start as int {
                assert(s + 3 > n);
            }
        }
    }
    None
}

} // verus!
