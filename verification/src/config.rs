//! The settings the service is started with.

use vstd::prelude::*;
use crate::text::{char_at, chars_of};

verus! {

/// The settings the service is started with.
#[derive(Debug, Clone)]
pub struct Config {
    pub port: u16,
    pub db_path: String,
    pub admin_username: Option<String>,
    pub admin_password: Option<String>,
    pub log_level: String,
}

/// What `validate` answers for given settings.
pub open spec fn validation_of(port: u16, db_path: Seq<char>) -> Result<(), Seq<char>> {
    if port == 0 {
        Err("Port must be between 1 and 65535"@)
    } else if db_path.len() == 0 {
        Err("Database path cannot be empty"@)
    } else {
        Ok(())
    }
}

impl Config {
    /// Accepts the settings if the port is not zero and the database path is
    /// not empty; says otherwise which of the two is wrong, the port first.
    pub fn validate(&self) -> (r: Result<(), String>)
        ensures
            match validation_of(self.port, self.db_path@) {
                Ok(_) => r is Ok,
                Err(msg) => r matches Err(m) && m@ == msg,
            },
    {
        if self.port == 0 {
            return Err(String::from_str("Port must be between 1 and 65535"));
        }
        if self.db_path.as_str().unicode_len() == 0 {
            return Err(String::from_str("Database path cannot be empty"));
        }
        Ok(())
    }
}

/// The character is one of the ten digits.
pub open spec fn is_digit(c: char) -> bool {
    0x30 <= c as u32 <= 0x39
}

/// Every character is a digit.
pub open spec fn all_digits(s: Seq<char>) -> bool {
    forall|i: int| 0 <= i < s.len() ==> is_digit(#[trigger] s[i])
}

/// The number that a sequence of digits stands for.
pub open spec fn digits_value(s: Seq<char>) -> nat
    decreases s.len(),
{
    if s.len() == 0 {
        0
    } else {
        (digits_value(s.drop_last()) * 10 + (s.last() as u32 - 0x30)) as nat
    }
}

/// The port that a text names: the text must be a sequence of digits, with
/// or without a plus sign in front, that stands for a number up to 65535.
pub open spec fn port_of(s: Seq<char>) -> Option<u16> {
    let digits = if s.len() > 0 && s[0] == '+' {
        s.drop_first()
    } else {
        s
    };
    if digits.len() > 0 && all_digits(digits) && digits_value(digits) <= 65535 {
        Some(digits_value(digits) as u16)
    } else {
        None
    }
}

/// A number does not get smaller when digits are put behind it.
pub proof fn lemma_digits_grow(s: Seq<char>, n: int)
    requires
        0 <= n <= s.len(),
        all_digits(s),
    ensures
        digits_value(s.take(n)) <= digits_value(s),
    decreases s.len() - n,
{
    if n < s.len() {
        assert(s.take(n + 1).drop_last() =~= s.take(n));
        assert(is_digit(s[n]));
        assert(s.take(n + 1).last() == s[n]);
        lemma_digits_grow(s, n + 1);
    } else {
        assert(s.take(n) =~= s);
    }
}

/// Reads a port number.
pub fn parse_port(text: &str) -> (r: Option<u16>)
    ensures
        r == port_of(text@),
{
    let chars: Vec<char> = chars_of(text);
    let n: usize = chars.len();
    let start: usize = if n > 0 && char_at(&chars, 0) == '+' {
        1
    } else {
        0
    };
    let ghost digits = chars@.subrange(start as int, n as int);
    proof {
        if start == 1 {
            assert(digits =~= text@.drop_first());
        } else {
            assert(digits =~= text@);
        }
        assert(digits.take(0) =~= Seq::<char>::empty());
    }
    if start == n {
        return None;
    }
    let mut value: u32 = 0;
    let mut i: usize = start;
    while i < n
        invariant
            chars@ == text@,
            n == chars@.len(),
            start <= i <= n,
            digits == chars@.subrange(start as int, n as int),
            digits == (if text@.len() > 0 && text@[0] == '+' {
                text@.drop_first()
            } else {
                text@
            }),
            all_digits(digits.take(i - start)),
            value == digits_value(digits.take(i - start)),
            value <= 65535,
        decreases n - i,
    {
        let c: char = char_at(&chars, i);
        let code: u32 = c as u32;
        proof {
            assert(digits[i - start] == c);
            assert(digits.take(i - start + 1).drop_last() =~= digits.take(i - start));
            assert(digits.take(i - start + 1).last() == c);
        }
        if code < 0x30 || code > 0x39 {
            proof {
                assert(!is_digit(digits[i - start]));
            }
            return None;
        }
        let next: u32 = value * 10 + (code - 0x30);
        proof {
            assert(all_digits(digits.take(i - start + 1))) by {
                assert forall|j: int| 0 <= j < i - start + 1 implies is_digit(
                    #[trigger] digits.take(i - start + 1)[j],
                ) by {
                    if j < i - start {
                        assert(digits.take(i - start)[j] == digits.take(i - start + 1)[j]);
                    }
                }
            }
        }
        if next > 65535 {
            proof {
                if all_digits(digits) {
                    lemma_digits_grow(digits, i - start + 1);
                    assert(digits_value(digits.take(i - start + 1)) == next);
                }
            }
            return None;
        }
        value = next;
        i += 1;
    }
    proof {
        assert(digits.take(n - start) =~= digits);
    }
    Some(value as u16)
}

/// The port used when none is configured.
pub const DEFAULT_PORT: u16 = 8080;

impl Config {
    /// The settings made from what the environment holds: the port (8080 if
    /// it is missing or not a port number), the database path
    /// ("./pod-synq.db" if missing), the name and the password of the first
    /// administrator, and the log level ("info" if missing).
    pub fn from_vars(
        port: Option<&str>,
        db_path: Option<String>,
        admin_username: Option<String>,
        admin_password: Option<String>,
        log_level: Option<String>,
    ) -> (r: Config)
        ensures
            r.port == (match port {
                Some(text) => match port_of(text@) {
                    Some(p) => p,
                    None => DEFAULT_PORT,
                },
                None => DEFAULT_PORT,
            }),
            r.db_path@ == (match db_path {
                Some(path) => path@,
                None => "./pod-synq.db"@,
            }),
            r.admin_username == admin_username,
            r.admin_password == admin_password,
            r.log_level@ == (match log_level {
                Some(level) => level@,
                None => "info"@,
            }),
    {
        let port: u16 = match port {
            Some(text) => match parse_port(text) {
                Some(p) => p,
                None => DEFAULT_PORT,
            },
            None => DEFAULT_PORT,
        };
        let db_path: String = match db_path {
            Some(path) => path,
            None => String::from_str("./pod-synq.db"),
        };
        let log_level: String = match log_level {
            Some(level) => level,
            None => String::from_str("info"),
        };
        Config { port, db_path, admin_username, admin_password, log_level }
    }
}

} // verus!
