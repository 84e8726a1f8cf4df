//! Configuration of the service.

use vstd::prelude::*;

verus! {

/// The settings of the service.
#[derive(Clone, Debug)]
pub struct Config {
    pub database_url: String,
    pub jwt_secret: String,
    pub server_host: String,
    pub server_port: u16,
    pub frontend_url: String,
}

/// The value of a decimal digit, or `None` for another character.
pub open spec fn digit_value(c: char) -> Option<int> {
    if '0' <= c <= '9' {
        Some(c as int - '0' as int)
    } else {
        None
    }
}

/// The number written by `text` in decimal digits, or `None` when a
/// character is no digit; the empty text writes zero.
pub open spec fn digits_value(text: Seq<char>) -> Option<int>
    decreases text.len(),
{
    if text.len() == 0 {
        Some(0)
    } else {
        match (digits_value(text.drop_last()), digit_value(text.last())) {
            (Some(head), Some(d)) => Some(head * 10 + d),
            _ => None,
        }
    }
}

/// The port written by `text`: one or more decimal digits, optionally after
/// a plus sign, with a value of at most 65535.
pub open spec fn port_value(text: Seq<char>) -> Option<u16> {
    let digits = if text.len() > 0 && text[0] == '+' {
        text.subrange(1, text.len() as int)
    } else {
        text
    };
    if digits.len() == 0 {
        None
    } else {
        match digits_value(digits) {
            Some(v) => if v <= 65535 {
                Some(v as u16)
            } else {
                None
            },
            None => None,
        }
    }
}

/// A number is at least as large as the number its first digits write.
proof fn lemma_digits_grow(text: Seq<char>, k: int)
    requires
        0 <= k <= text.len(),
        digits_value(text) is Some,
    ensures
        digits_value(text.take(k)) matches Some(v) && 0 <= v <= digits_value(text).unwrap(),
    decreases text.len() - k,
{
    if k == text.len() {
        assert(text.take(k) =~= text);
        lemma_digits_nonnegative(text);
    } else {
        lemma_digits_grow(text, k + 1);
        assert(text.take(k + 1).drop_last() =~= text.take(k));
        lemma_digits_nonnegative(text.take(k));
    }
}

/// A written number is not negative.
proof fn lemma_digits_nonnegative(text: Seq<char>)
    ensures
        digits_value(text) matches Some(v) ==> v >= 0,
    decreases text.len(),
{
    if text.len() > 0 {
        lemma_digits_nonnegative(text.drop_last());
    }
}

/// Once a prefix is no number, or too large, so is the whole.
proof fn lemma_digits_prefix_bad(text: Seq<char>, k: int)
    requires
        0 <= k <= text.len(),
    ensures
        digits_value(text.take(k)) is None ==> digits_value(text) is None,
        digits_value(text.take(k)) matches Some(v) ==> (digits_value(text) matches Some(w) ==> v
            <= w),
{
    if digits_value(text) is Some {
        lemma_digits_grow(text, k);
    }
}

/// Reads a port number.
pub fn parse_port(text: &str) -> (port: Option<u16>)
    ensures
        port == port_value(text@),
{
    let n = text.unicode_len();
    let start: usize = if n > 0 && text.get_char(0) == '+' { 1 } else { 0 };
    if start == n {
        return None;
    }
    let ghost digits = text@.subrange(start as int, n as int);
    let mut value: u32 = 0;
    let mut i: usize = start;
    proof {
        assert(digits.take(0) =~= Seq::<char>::empty());
        if start == 0 {
            assert(digits =~= text@);
        }
    }
    while i < n
        invariant
            start <= i <= n,
            n == text@.len(),
            digits == text@.subrange(start as int, n as int),
            digits.len() > 0,
            port_value(text@) == (match digits_value(digits) {
                Some(v) => if v <= 65535 {
                    Some(v as u16)
                } else {
                    None
                },
                None => None,
            }),
            digits_value(digits.take(i - start)) == Some(value as int),
            value <= 65535,
        decreases n - i,
    {
        let c = text.get_char(i);
        proof {
            assert(digits.take(i - start + 1).drop_last() =~= digits.take(i - start));
            assert(digits.take(i - start + 1).last() == c);
            lemma_digits_prefix_bad(digits, i - start + 1);
        }
        if c < '0' || c > '9' {
            return None;
        }
        let d: u32 = c as u32 - '0' as u32;
        value = value * 10 + d;
        if value > 65535 {
            return None;
        }
        i = i + 1;
    }
    proof {
        assert(digits.take(n - start) =~= digits);
    }
    Some(value as u16)
}

/// The text of a setting, or its default when it is not set.
pub fn setting_or(value: Option<String>, default: &str) -> (text: String)
    ensures
        text@ == (match value {
            Some(v) => v@,
            None => default@,
        }),
{
    match value {
        Some(v) => v,
        None => default.to_owned(),
    }
}

impl Config {
    /// The configuration from the settings found in the environment; each
    /// one that is absent takes its default. `None` when the port is no
    /// port number.
    pub fn from_values(
        database_url: Option<String>,
        jwt_secret: Option<String>,
        server_host: Option<String>,
        server_port: Option<String>,
        frontend_url: Option<String>,
    ) -> (config: Option<Config>)
        ensures
            config.is_some() == (match server_port {
                Some(p) => port_value(p@) is Some,
                None => true,
            }),
            config matches Some(c) ==> {
                &&& c.database_url@ == (match database_url {
                    Some(v) => v@,
                    None => "sqlite:./curvematch.db"@,
                })
                &&& c.jwt_secret@ == (match jwt_secret {
                    Some(v) => v@,
                    None => "default-secret-change-in-production"@,
                })
                &&& c.server_host@ == (match server_host {
                    Some(v) => v@,
                    None => "127.0.0.1"@,
                })
                &&& c.server_port == (match server_port {
                    Some(p) => port_value(p@).unwrap(),
                    None => 3000u16,
                })
                &&& c.frontend_url@ == (match frontend_url {
                    Some(v) => v@,
                    None => "http://localhost:5173"@,
                })
            },
    {
        let port = match server_port {
            Some(p) => parse_port(p.as_str()),
            None => Some(3000),
        };
        match port {
            Some(server_port) => Some(
                Config {
                    database_url: setting_or(database_url, "sqlite:./curvematch.db"),
                    jwt_secret: setting_or(jwt_secret, "default-secret-change-in-production"),
                    server_host: setting_or(server_host, "127.0.0.1"),
                    server_port,
                    frontend_url: setting_or(frontend_url, "http://localhost:5173"),
                },
            ),
            None => None,
        }
    }
}

} // verus!
