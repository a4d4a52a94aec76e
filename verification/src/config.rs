//! Application settings and the defaulting rules that build them from
//! raw environment values. Reading the environment itself happens
//! outside this crate; this module holds the part that computes.

use vstd::prelude::*;

verus! {

/// Application configuration settings.
#[derive(Debug, PartialEq)]
pub struct AppConfig {
    /// Host address to bind the server to.
    pub host: String,
    /// Port to bind the server to.
    pub port: u16,
    /// Log level, such as "info", "debug" or "trace".
    pub log_level: String,
    /// Optional database URL for persistent storage.
    pub database_url: Option<String>,
}

/// A decimal digit.
pub open spec fn is_decimal_digit(c: char) -> bool {
    48 <= c as int <= 57
}

/// Every character of the sequence is a decimal digit.
pub open spec fn all_decimal_digits(s: Seq<char>) -> bool {
    forall|i: int| 0 <= i < s.len() ==> is_decimal_digit(#[trigger] s[i])
}

/// The number the digit sequence denotes in base ten.
pub open spec fn decimal_value(s: Seq<char>) -> int
    decreases s.len(),
{
    if s.len() == 0 {
        0
    } else {
        decimal_value(s.drop_last()) * 10 + (s.last() as int - 48)
    }
}

/// What parsing a port number returns: an optional leading plus sign,
/// then at least one decimal digit, denoting a value that fits in a
/// 16-bit port; anything else is rejected.
pub open spec fn spec_parse_u16(s: Seq<char>) -> Option<u16> {
    let digits = if s.len() >= 1 && s[0] == '+' {
        s.drop_first()
    } else {
        s
    };
    if digits.len() == 0 || !all_decimal_digits(digits) {
        None
    } else if decimal_value(digits) > 65535 {
        None
    } else {
        Some(decimal_value(digits) as u16)
    }
}

/// A digit sequence denotes a nonnegative number.
proof fn lemma_decimal_value_nonneg(s: Seq<char>)
    requires
        all_decimal_digits(s),
    ensures
        decimal_value(s) >= 0,
    decreases s.len(),
{
    if s.len() > 0 {
        let rest = s.drop_last();
        assert forall|i: int| 0 <= i < rest.len() implies is_decimal_digit(#[trigger] rest[i]) by {
            assert(is_decimal_digit(s[i]));
        }
        lemma_decimal_value_nonneg(rest);
    }
}

/// A prefix of a digit sequence denotes at most what the whole denotes.
proof fn lemma_decimal_prefix_le(s: Seq<char>, k: int)
    requires
        all_decimal_digits(s),
        0 <= k <= s.len(),
    ensures
        decimal_value(s.take(k)) <= decimal_value(s),
    decreases s.len() - k,
{
    if k == s.len() {
        assert(s.take(k) =~= s);
    } else {
        let p = s.take(k);
        let p1 = s.take(k + 1);
        assert(p1.drop_last() =~= p);
        assert(p1.last() == s[k]);
        assert forall|i: int| 0 <= i < p.len() implies is_decimal_digit(#[trigger] p[i]) by {
            assert(is_decimal_digit(s[i]));
        }
        lemma_decimal_value_nonneg(p);
        assert(decimal_value(p1) == decimal_value(p) * 10 + (s[k] as int - 48));
        lemma_decimal_prefix_le(s, k + 1);
    }
}

/// Parses a 16-bit port number: an optional leading plus sign, then at
/// least one decimal digit; rejects anything else and values over the
/// port range.
pub fn parse_port(s: &str) -> (r: Option<u16>)
    ensures
        r == spec_parse_u16(s@),
{
    let n = s.unicode_len();
    let ghost view = s@;
    if n == 0 {
        return None;
    }
    let first = s.get_char(0);
    let start: usize = if first == '+' {
        1
    } else {
        0
    };
    let ghost digits = if view[0] == '+' {
        view.drop_first()
    } else {
        view
    };
    if n == start {
        return None;
    }
    let mut acc: u32 = 0;
    let mut i: usize = start;
    proof {
        assert(digits.take(0) =~= Seq::empty());
    }
    while i < n
        invariant
            start == 0 || start == 1,
            start <= i <= n,
            n == view.len(),
            view == s@,
            start == 1 ==> view.len() >= 1 && view[0] == '+' && digits == view.drop_first(),
            start == 0 ==> !(view.len() >= 1 && view[0] == '+') && digits == view,
            digits.len() == n - start,
            all_decimal_digits(digits.take(i - start)),
            acc == decimal_value(digits.take(i - start)),
            acc <= 65535,
        decreases n - i,
    {
        let c = s.get_char(i);
        let cv: u32 = c as u32;
        proof {
            assert(c == view[i as int]);
            assert(digits[i - start] == view[i as int]);
            assert(cv == c as u32);
            assert(c as int == cv as int);
        }
        if cv < 48 || cv > 57 {
            proof {
                assert(!is_decimal_digit(digits[i - start]));
                assert(!all_decimal_digits(digits));
            }
            return None;
        }
        let d: u32 = cv - 48;
        let ghost prefix = digits.take(i - start);
        let ghost prefix1 = digits.take(i + 1 - start);
        proof {
            assert(prefix1.drop_last() =~= prefix);
            assert(prefix1.last() == digits[i - start]);
            assert(decimal_value(prefix1) == acc * 10 + d);
            assert forall|x: int| 0 <= x < prefix1.len() implies is_decimal_digit(
                #[trigger] prefix1[x],
            ) by {
                if x < prefix.len() {
                    assert(is_decimal_digit(prefix[x]));
                } else {
                    assert(prefix1[x] == digits[i - start]);
                }
            }
        }
        if acc > 6553 || (acc == 6553 && d > 5) {
            proof {
                assert(decimal_value(prefix1) > 65535);
                if all_decimal_digits(digits) {
                    lemma_decimal_prefix_le(digits, i + 1 - start);
                    assert(decimal_value(digits) > 65535);
                }
            }
            return None;
        }
        acc = acc * 10 + d;
        i += 1;
    }
    proof {
        assert(digits.take(n - start) =~= digits);
        assert(decimal_value(digits) == acc);
        lemma_decimal_value_nonneg(digits);
    }
    Some(acc as u16)
}

impl AppConfig {
    /// Builds the configuration from raw environment values, applying
    /// the documented defaults: host 127.0.0.1, port 8080 when absent
    /// or unparsable, log level "info", and no database URL.
    pub fn from_env_values(
        host: Option<String>,
        port: Option<String>,
        log_level: Option<String>,
        database_url: Option<String>,
    ) -> (c: AppConfig)
        ensures
            c.host@ == match host {
                Some(h) => h@,
                None => "127.0.0.1"@,
            },
            c.port == match port {
                Some(p) => match spec_parse_u16(p@) {
                    Some(v) => v,
                    None => 8080u16,
                },
                None => 8080u16,
            },
            c.log_level@ == match log_level {
                Some(l) => l@,
                None => "info"@,
            },
            c.database_url == database_url,
    {
        let host_v: String = match host {
            Some(h) => h,
            None => "127.0.0.1".to_owned(),
        };
        let port_v: u16 = match port {
            Some(p) => match parse_port(p.as_str()) {
                Some(v) => v,
                None => 8080,
            },
            None => 8080,
        };
        let log_v: String = match log_level {
            Some(l) => l,
            None => "info".to_owned(),
        };
        AppConfig { host: host_v, port: port_v, log_level: log_v, database_url }
    }
}

} // verus!
