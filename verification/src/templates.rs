use vstd::prelude::*;
use vstd::string::StrSliceExecFns;
use vstd::string::StringExecFns;

verus! {

/// `s` without its '-' characters.
pub open spec fn strip_dashes(s: Seq<char>) -> Seq<char>
    decreases s.len(),
{
    if s.len() == 0 {
        s
    } else if s.last() == '-' {
        strip_dashes(s.drop_last())
    } else {
        strip_dashes(s.drop_last()).push(s.last())
    }
}

/// The number of bytes that UTF-8 spends on `c`.
pub open spec fn utf8_width(c: char) -> int {
    if (c as int) < 0x80 {
        1
    } else if (c as int) < 0x800 {
        2
    } else if (c as int) < 0x10000 {
        3
    } else {
        4
    }
}

/// The number of bytes of `s` in UTF-8.
pub open spec fn utf8_len(s: Seq<char>) -> int
    decreases s.len(),
{
    if s.len() == 0 {
        0
    } else {
        utf8_width(s[0]) + utf8_len(s.drop_first())
    }
}

/// How many characters of `s` make up exactly its first `n` bytes in UTF-8;
/// `None` when byte `n` falls inside a character or past the end.
pub open spec fn chars_in_first_bytes(s: Seq<char>, n: int) -> Option<int>
    decreases s.len(),
{
    if n == 0 {
        Some(0)
    } else if s.len() == 0 || utf8_width(s[0]) > n {
        None
    } else {
        match chars_in_first_bytes(s.drop_first(), n - utf8_width(s[0])) {
            Some(k) => Some(k + 1),
            None => None,
        }
    }
}

/// The value of a hexadecimal digit, either case.
pub open spec fn hex_digit(c: char) -> Option<int> {
    if ('0' as int) <= (c as int) <= ('9' as int) {
        Some(c as int - '0' as int)
    } else if ('a' as int) <= (c as int) <= ('f' as int) {
        Some(c as int - 'a' as int + 10)
    } else if ('A' as int) <= (c as int) <= ('F' as int) {
        Some(c as int - 'A' as int + 10)
    } else {
        None
    }
}

/// The value of a string of hexadecimal digits.
pub open spec fn hex_digits_value(s: Seq<char>) -> Option<int>
    decreases s.len(),
{
    if s.len() == 0 {
        Some(0)
    } else {
        match (hex_digits_value(s.drop_last()), hex_digit(s.last())) {
            (Some(v), Some(d)) => Some(v * 16 + d),
            _ => None,
        }
    }
}

/// What `u64::from_str_radix(s, 16)` reads from `s`: an optional '+'
/// followed by at least one hexadecimal digit (for strings short enough
/// not to overflow).
pub open spec fn parse_hex(s: Seq<char>) -> Option<int> {
    if s.len() == 0 {
        None
    } else if s[0] == '+' {
        if s.len() == 1 {
            None
        } else {
            hex_digits_value(s.drop_first())
        }
    } else {
        hex_digits_value(s)
    }
}

/// Cutting the first 12 bytes off a UUID's hex digits does not split a
/// character.
pub open spec fn uuid7_sliceable_spec(value: Seq<char>) -> bool {
    let hex = strip_dashes(value);
    utf8_len(hex) < 12 || chars_in_first_bytes(hex, 12) is Some
}

/// The milliseconds since the Unix epoch that a UUIDv7 records in its first
/// 48 bits (12 hex digits), when they read as a number.
pub open spec fn uuid7_millis(value: Seq<char>) -> Option<int> {
    let hex = strip_dashes(value);
    if utf8_len(hex) < 12 {
        None
    } else {
        match chars_in_first_bytes(hex, 12) {
            Some(k) => parse_hex(hex.take(k)),
            None => None,
        }
    }
}

/// How humantime writes a duration of `secs` seconds, such as "2h 37m".
pub uninterp spec fn humantime_text(secs: u64) -> Seq<char>;

/// `humantime::format_duration` of whole seconds, as text: named
/// `humantime_text`.
#[verifier::external_body]
fn format_duration_secs(secs: u64) -> (r: String)
    ensures
        r@ == humantime_text(secs),
{
    humantime::format_duration(std::time::Duration::from_secs(secs)).to_string()
}

/// The milliseconds since the Unix epoch by the system clock; `None` when
/// the clock is set before the epoch or beyond what a `u64` counts. Nothing
/// is stated of the value: it is the time.
#[verifier::external_body]
fn now_millis() -> Option<u64> {
    match std::time::SystemTime::now().duration_since(std::time::UNIX_EPOCH) {
        Ok(d) => u64::try_from(d.as_millis()).ok(),
        Err(_) => None,
    }
}

/// The text shown when no age can be told: an em dash.
pub open spec fn no_age() -> Seq<char> {
    seq!['\u{2014}']
}

/// How long ago the record with UUIDv7 `value` was created, seen at
/// `now_ms`, to the minute: "5h 2m ago"; a dash when the UUID does not
/// tell, or the time is unknown or earlier.
pub open spec fn uuid7_age(value: Seq<char>, now_ms: Option<u64>) -> Seq<char> {
    match uuid7_millis(value) {
        Some(ms) => match now_ms {
            Some(now) => if now >= ms {
                humantime_text(((now - ms) / 1000 / 60 * 60) as u64) + " ago"@
            } else {
                no_age()
            },
            None => no_age(),
        },
        None => no_age(),
    }
}

proof fn lemma_strip_step(value: Seq<char>, i: int)
    requires
        0 <= i < value.len(),
    ensures
        strip_dashes(value.take(i + 1)) == if value[i] == '-' {
            strip_dashes(value.take(i))
        } else {
            strip_dashes(value.take(i)).push(value[i])
        },
{
    assert(value.take(i + 1).drop_last() =~= value.take(i));
}

fn strip_dashes_exec(value: &str) -> (r: Vec<char>)
    ensures
        r@ == strip_dashes(value@),
{
    let n = value.unicode_len();
    let mut out: Vec<char> = Vec::new();
    let mut i: usize = 0;
    assert(value@.take(0) =~= Seq::<char>::empty());
    while i < n
        invariant
            n == value@.len(),
            i <= n,
            out@ == strip_dashes(value@.take(i as int)),
        decreases n - i,
    {
        proof {
            lemma_strip_step(value@, i as int);
        }
        let c = value.get_char(i);
        if c != '-' {
            out.push(c);
        }
        i = i + 1;
    }
    assert(value@.take(n as int) =~= value@);
    out
}

fn width(c: char) -> (w: u64)
    ensures
        w == utf8_width(c),
{
    let code = c as u32;
    if code < 0x80 {
        1
    } else if code < 0x800 {
        2
    } else if code < 0x10000 {
        3
    } else {
        4
    }
}

/// Counts the characters that the first 12 bytes of `hex` hold: `(k, bytes)`
/// with `bytes` the UTF-8 length of the first `k` characters, stopping at
/// the end or once `bytes` reaches 12.
fn first_twelve_bytes(hex: &Vec<char>) -> (r: (usize, u64))
    ensures
        r.0 <= hex@.len(),
        r.0 <= r.1,
        r.1 < 12 ==> r.0 == hex@.len() && utf8_len(hex@) == r.1,
        r.1 >= 12 ==> utf8_len(hex@) >= 12,
        r.1 == 12 ==> chars_in_first_bytes(hex@, 12) == Some(r.0 as int),
        r.1 > 12 ==> chars_in_first_bytes(hex@, 12) is None,
{
    let n = hex.len();
    let mut k: usize = 0;
    let mut bytes: u64 = 0;
    assert(hex@.skip(0) =~= hex@);
    while k < n && bytes < 12
        invariant
            n == hex@.len(),
            k <= n,
            k <= bytes,
            bytes <= 15,
            utf8_len(hex@) == bytes + utf8_len(hex@.skip(k as int)),
            bytes <= 12 ==> chars_in_first_bytes(hex@, 12) == match chars_in_first_bytes(
                hex@.skip(k as int),
                12 - bytes,
            ) {
                Some(j) => Some(j + k),
                None => None,
            },
            bytes > 12 ==> chars_in_first_bytes(hex@, 12) is None,
        decreases n - k,
    {
        let ghost rest = hex@.skip(k as int);
        assert(rest.drop_first() =~= hex@.skip(k + 1));
        let w = width(hex[k]);
        bytes = bytes + w;
        k = k + 1;
    }
    proof {
        let rest = hex@.skip(k as int);
        if bytes < 12 {
            assert(rest.len() == 0);
        }
        if bytes >= 12 {
            lemma_utf8_len_nonneg(rest);
        }
    }
    (k, bytes)
}

proof fn lemma_utf8_len_nonneg(s: Seq<char>)
    ensures
        utf8_len(s) >= 0,
    decreases s.len(),
{
    if s.len() > 0 {
        lemma_utf8_len_nonneg(s.drop_first());
    }
}

fn hex_value(c: char) -> (r: Option<u64>)
    ensures
        match hex_digit(c) {
            Some(d) => r == Some(d as u64),
            None => r is None,
        },
{
    let code = c as u32;
    if 48 <= code && code <= 57 {
        Some((code - 48) as u64)
    } else if 97 <= code && code <= 102 {
        Some((code - 87) as u64)
    } else if 65 <= code && code <= 70 {
        Some((code - 55) as u64)
    } else {
        None
    }
}

/// `u64::from_str_radix` in base 16 on the first `k` characters of `hex`,
/// `k` at most 12.
fn parse_hex_prefix(hex: &Vec<char>, k: usize) -> (r: Option<u64>)
    requires
        k <= 12,
        k <= hex@.len(),
    ensures
        match parse_hex(hex@.take(k as int)) {
            Some(v) => (r matches Some(x) && x == v),
            None => r is None,
        },
{
    let ghost s = hex@.take(k as int);
    if k == 0 {
        return None;
    }
    let mut from: usize = 0;
    assert(s[0] == hex@[0]);
    if hex[0] == '+' {
        if k == 1 {
            return None;
        }
        from = 1;
    }
    let ghost digits = s.skip(from as int);
    assert(from == 1 ==> digits =~= s.drop_first());
    assert(from == 0 ==> digits =~= s);
    assert(parse_hex(s) == hex_digits_value(digits));
    let mut v: u64 = 0;
    let mut j: usize = from;
    assert(digits.take(0) =~= Seq::<char>::empty());
    while j < k
        invariant
            from <= j <= k,
            k <= 12,
            k <= hex@.len(),
            s == hex@.take(k as int),
            digits == s.skip(from as int),
            parse_hex(s) == hex_digits_value(digits),
            hex_digits_value(digits.take(j - from)) == Some(v as int),
            v < pow16((j - from) as nat),
        decreases k - j,
    {
        let ghost t = digits.take(j - from + 1);
        assert(t.drop_last() =~= digits.take(j - from));
        assert(t.last() == hex@[j as int]);
        match hex_value(hex[j]) {
            Some(d) => {
                proof {
                    lemma_pow16_bound((j - from) as nat);
                    assert(v * 16 + d < pow16((j - from + 1) as nat)) by (nonlinear_arith)
                        requires
                            v < pow16((j - from) as nat),
                            d < 16,
                            pow16((j - from + 1) as nat) == 16 * pow16((j - from) as nat),
                    ;
                }
                v = v * 16 + d;
            },
            None => {
                proof {
                    assert(digits.len() == k - from);
                    assert(digits[j - from] == hex@[j as int]);
                    lemma_hex_fails_later(digits, j - from, k - from);
                    assert(digits.take(k - from) =~= digits);
                }
                return None;
            },
        }
        j = j + 1;
    }
    assert(digits.take(k - from) =~= digits);
    Some(v)
}

/// 16 to the power `n`.
pub open spec fn pow16(n: nat) -> int
    decreases n,
{
    if n == 0 {
        1
    } else {
        16 * pow16((n - 1) as nat)
    }
}

proof fn lemma_pow16_monotone(n: nat)
    requires
        n <= 12,
    ensures
        pow16(n) <= pow16(12),
    decreases 12 - n,
{
    if n < 12 {
        lemma_pow16_monotone(n + 1);
        assert(pow16(n + 1) == 16 * pow16(n));
        lemma_pow16_positive(n);
    }
}

proof fn lemma_pow16_positive(n: nat)
    ensures
        pow16(n) >= 1,
    decreases n,
{
    if n > 0 {
        lemma_pow16_positive((n - 1) as nat);
    }
}

proof fn lemma_pow16_bound(n: nat)
    requires
        n < 12,
    ensures
        pow16(n + 1) == 16 * pow16(n),
        pow16(n + 1) <= 0x1_0000_0000_0000,
{
    lemma_pow16_monotone(n + 1);
    reveal_with_fuel(pow16, 13);
    assert(pow16(12) == 0x1_0000_0000_0000);
}

proof fn lemma_hex_fails_later(digits: Seq<char>, bad: int, end: int)
    requires
        0 <= bad < end <= digits.len(),
        hex_digit(digits[bad]) is None,
    ensures
        hex_digits_value(digits.take(end)) is None,
    decreases end,
{
    let t = digits.take(end);
    assert(t.drop_last() =~= digits.take(end - 1));
    if end - 1 > bad {
        lemma_hex_fails_later(digits, bad, end - 1);
    }
}

/// Whether the first 12 bytes of the UUID's hex digits can be cut off
/// without splitting a character.
pub fn uuid7_sliceable(value: &str) -> (r: bool)
    ensures
        r == uuid7_sliceable_spec(value@),
{
    let hex = strip_dashes_exec(value);
    let (_, bytes) = first_twelve_bytes(&hex);
    bytes <= 12
}

fn dash() -> (r: String)
    ensures
        r@ == no_age(),
{
    let mut r = String::new();
    crate::text::push_char(&mut r, '\u{2014}');
    assert(r@ =~= no_age());
    r
}

/// How long ago the record with UUIDv7 `value` was created, seen at
/// `now_ms` (milliseconds since the Unix epoch), to the minute.
pub fn uuid7_timestamp_at(value: &str, now_ms: Option<u64>) -> (r: String)
    requires
        uuid7_sliceable_spec(value@),
    ensures
        r@ == uuid7_age(value@, now_ms),
{
    let hex = strip_dashes_exec(value);
    let (k, bytes) = first_twelve_bytes(&hex);
    if bytes < 12 {
        return dash();
    }
    assert(bytes == 12);
    let ms = match parse_hex_prefix(&hex, k) {
        Some(ms) => ms,
        None => {
            return dash();
        },
    };
    match now_ms {
        Some(now) => if now >= ms {
            let secs = (now - ms) / 1000 / 60 * 60;
            let mut r = format_duration_secs(secs);
            r.append(" ago");
            r
        } else {
            dash()
        },
        None => dash(),
    }
}

/// How long ago the record with UUIDv7 `value` was created, by the system
/// clock, to the minute: the `uuid7_timestamp` template filter.
pub fn uuid7_timestamp(value: &str) -> (r: String)
    requires
        uuid7_sliceable_spec(value@),
    ensures
        exists|now: Option<u64>| r@ == uuid7_age(value@, now),
{
    let now = now_millis();
    let r = uuid7_timestamp_at(value, now);
    assert(r@ == uuid7_age(value@, now));
    r
}

} // verus!
