use vstd::prelude::*;
use crate::destination::{headers_view, Header};
use crate::error::AppError;
use crate::headers::{env_lookup, lookup_env};

verus! {

/// The numeric value of a run of decimal digits; `None` if any character is
/// not a digit.
pub open spec fn digits_value(s: Seq<char>) -> Option<nat>
    decreases s.len(),
{
    if s.len() == 0 {
        Some(0)
    } else {
        let c = s.last();
        if '0' <= c && c <= '9' {
            match digits_value(s.drop_last()) {
                Some(v) => Some((v * 10 + (c as int - '0' as int)) as nat),
                None => None,
            }
        } else {
            None
        }
    }
}

/// What `str::parse` gives for an unsigned integer at most `max`: an
/// optional `+`, then one or more decimal digits, of value at most `max`.
pub open spec fn parsed_unsigned(s: Seq<char>, max: nat) -> Option<nat> {
    let digits = if s.len() > 0 && s[0] == '+' {
        s.skip(1)
    } else {
        s
    };
    if digits.len() == 0 {
        None
    } else {
        match digits_value(digits) {
            Some(v) => if v <= max {
                Some(v)
            } else {
                None
            },
            None => None,
        }
    }
}

/// Parses an unsigned decimal of value at most `max`.
pub fn parse_unsigned(s: &str, max: u64) -> (r: Option<u64>)
    ensures
        match r {
            Some(v) => parsed_unsigned(s@, max as nat) == Some(v as nat),
            None => parsed_unsigned(s@, max as nat) is None,
        },
{
    let n = s.unicode_len();
    let start: usize = if n > 0 && s.get_char(0) == '+' {
        1
    } else {
        0
    };
    let ghost digits = if s@.len() > 0 && s@[0] == '+' {
        s@.skip(1)
    } else {
        s@
    };
    assert(digits =~= s@.subrange(start as int, n as int));
    if start == n {
        return None;
    }
    let mut v: u64 = 0;
    let mut i: usize = start;
    while i < n
        invariant
            n == s@.len(),
            start <= i <= n,
            digits == s@.subrange(start as int, n as int),
            digits == (if s@.len() > 0 && s@[0] == '+' {
                s@.skip(1)
            } else {
                s@
            }),
            digits_value(s@.subrange(start as int, i as int)) == Some(v as nat),
            v <= max,
        decreases n - i,
    {
        let c = s.get_char(i);
        proof {
            assert(s@.subrange(start as int, i + 1).drop_last() =~= s@.subrange(start as int, i as int));
        }
        if c < '0' || c > '9' {
            proof {
                assert(digits[(i - start) as int] == c);
                lemma_digits_prefix(digits, (i - start) as int);
                assert(digits_value(digits) is None);
                assert(digits.len() > 0);
                assert(parsed_unsigned(s@, max as nat) is None);
            }
            return None;
        }
        let d = (c as u32 - '0' as u32) as u64;
        if d > max || v > (max - d) / 10 {
            proof {
                lemma_digits_grow(digits, (i - start) as int);
                assert(digits.subrange(0, i - start + 1) =~= s@.subrange(start as int, i + 1));
                assert(digits_value(s@.subrange(start as int, i + 1)) == Some((v * 10 + d) as nat));
                if d <= max {
                    assert(v * 10 + d > max) by (nonlinear_arith)
                        requires
                            v > (max - d) / 10,
                            max >= d,
                    ;
                }
            }
            return None;
        }
        proof {
            assert(v * 10 + d <= max) by (nonlinear_arith)
                requires
                    v <= (max - d) / 10,
                    max >= d,
            ;
        }
        v = v * 10 + d;
        i = i + 1;
    }
    assert(s@.subrange(start as int, n as int) =~= digits);
    Some(v)
}

proof fn lemma_digits_prefix(s: Seq<char>, k: int)
    requires
        0 <= k < s.len(),
        !('0' <= s[k] && s[k] <= '9'),
    ensures
        digits_value(s) is None,
        digits_value(s.subrange(0, k + 1)) is None,
    decreases s.len(),
{
    assert(s.subrange(0, k + 1).last() == s[k]);
    if k < s.len() - 1 {
        lemma_digits_prefix(s.drop_last(), k);
        assert(s.drop_last().subrange(0, k + 1) =~= s.subrange(0, k + 1));
    }
}

proof fn lemma_digits_grow(s: Seq<char>, k: int)
    requires
        0 <= k < s.len(),
    ensures
        forall|a: nat, b: nat|
            digits_value(s.subrange(0, k + 1)) == Some(a) && digits_value(s) == Some(b) ==> a <= b,
    decreases s.len(),
{
    if k < s.len() - 1 {
        lemma_digits_grow(s.drop_last(), k);
        assert(s.drop_last().subrange(0, k + 1) =~= s.subrange(0, k + 1));
    } else {
        assert(s.subrange(0, k + 1) =~= s);
    }
}

/// What `str::parse` gives for an `i32`: an optional sign, then one or
/// more decimal digits, within the type's range.
pub open spec fn parsed_i32(s: Seq<char>) -> Option<int> {
    if s.len() > 0 && s[0] == '-' {
        let rest = s.skip(1);
        if rest.len() > 0 && rest[0] == '+' {
            None
        } else {
            match parsed_unsigned(rest, 2147483648) {
                Some(v) => Some(-v),
                None => None,
            }
        }
    } else {
        match parsed_unsigned(s, 2147483647) {
            Some(v) => Some(v as int),
            None => None,
        }
    }
}

/// Parses an `i32`.
pub fn parse_i32(s: &str) -> (r: Option<i32>)
    ensures
        match r {
            Some(v) => parsed_i32(s@) == Some(v as int),
            None => parsed_i32(s@) is None,
        },
{
    let n = s.unicode_len();
    if n > 0 && s.get_char(0) == '-' {
        let rest = s.substring_char(1, n);
        assert(rest@ =~= s@.skip(1));
        if n > 1 && rest.get_char(0) == '+' {
            return None;
        }
        match parse_unsigned(rest, 2147483648) {
            Some(v) => {
                if v == 2147483648 {
                    Some(i32::MIN)
                } else {
                    Some(-(v as i32))
                }
            },
            None => None,
        }
    } else {
        match parse_unsigned(s, 2147483647) {
            Some(v) => Some(v as i32),
            None => None,
        }
    }
}

/// A variable's text, or the default when it is unset.
pub open spec fn env_text(env: Seq<(Seq<char>, Seq<char>)>, name: Seq<char>, default: Seq<char>) -> Seq<char> {
    match env_lookup(env, name) {
        Some(v) => v,
        None => default,
    }
}

/// A variable as an unsigned number at most `max`, or the default when it is
/// unset; `None` when it does not parse.
pub open spec fn env_unsigned(env: Seq<(Seq<char>, Seq<char>)>, name: Seq<char>, default: nat, max: nat) -> Option<nat> {
    match env_lookup(env, name) {
        Some(v) => parsed_unsigned(v, max),
        None => Some(default),
    }
}

/// A snapshot of the process environment: variable names and values.
#[derive(Debug)]
pub struct Environment {
    pub vars: Vec<Header>,
}

impl Environment {
    /// The variable's value, or `default` when it is unset.
    pub fn string(&self, env_name: &str, default: &str) -> (r: String)
        ensures
            r@ == match env_lookup(headers_view(self.vars@), env_name@) {
                Some(v) => v,
                None => default@,
            },
    {
        match lookup_env(&self.vars, env_name) {
            Some(v) => v,
            None => String::from_str(default),
        }
    }

    fn unsigned(&self, env_name: &str, default: u64, max: u64) -> (r: Result<u64, AppError>)
        ensures
            match env_lookup(headers_view(self.vars@), env_name@) {
                None => r == Ok::<u64, AppError>(default),
                Some(v) => match parsed_unsigned(v, max as nat) {
                    Some(n) => r matches Ok(x) && x == n,
                    None => r is Err,
                },
            },
    {
        match lookup_env(&self.vars, env_name) {
            None => Ok(default),
            Some(v) => match parse_unsigned(v.as_str(), max) {
                Some(n) => Ok(n),
                None => Err(AppError::new(v.as_str(), "Failed to parse environment variable")),
            },
        }
    }

    /// The variable as a `u16`, or `default` when unset; an error when it
    /// does not parse.
    pub fn u16(&self, env_name: &str, default: u16) -> (r: Result<u16, AppError>)
        ensures
            match env_lookup(headers_view(self.vars@), env_name@) {
                None => r == Ok::<u16, AppError>(default),
                Some(v) => match parsed_unsigned(v, u16::MAX as nat) {
                    Some(n) => r matches Ok(x) && x == n,
                    None => r is Err,
                },
            },
    {
        match self.unsigned(env_name, default as u64, u16::MAX as u64) {
            Ok(n) => Ok(n as u16),
            Err(e) => Err(e),
        }
    }

    /// The variable as a `u32`, or `default` when unset; an error when it
    /// does not parse.
    pub fn u32(&self, env_name: &str, default: u32) -> (r: Result<u32, AppError>)
        ensures
            match env_lookup(headers_view(self.vars@), env_name@) {
                None => r == Ok::<u32, AppError>(default),
                Some(v) => match parsed_unsigned(v, u32::MAX as nat) {
                    Some(n) => r matches Ok(x) && x == n,
                    None => r is Err,
                },
            },
    {
        match self.unsigned(env_name, default as u64, u32::MAX as u64) {
            Ok(n) => Ok(n as u32),
            Err(e) => Err(e),
        }
    }

    /// The variable as a `u64`, or `default` when unset; an error when it
    /// does not parse.
    pub fn u64(&self, env_name: &str, default: u64) -> (r: Result<u64, AppError>)
        ensures
            match env_lookup(headers_view(self.vars@), env_name@) {
                None => r == Ok::<u64, AppError>(default),
                Some(v) => match parsed_unsigned(v, u64::MAX as nat) {
                    Some(n) => r matches Ok(x) && x == n,
                    None => r is Err,
                },
            },
    {
        self.unsigned(env_name, default, u64::MAX)
    }

    /// The variable as an `i32`, or `default` when unset; an error when it
    /// does not parse.
    pub fn i32(&self, env_name: &str, default: i32) -> (r: Result<i32, AppError>)
        ensures
            match env_lookup(headers_view(self.vars@), env_name@) {
                None => r == Ok::<i32, AppError>(default),
                Some(v) => match parsed_i32(v) {
                    Some(n) => r matches Ok(x) && x == n,
                    None => r is Err,
                },
            },
    {
        match lookup_env(&self.vars, env_name) {
            None => Ok(default),
            Some(v) => match parse_i32(v.as_str()) {
                Some(n) => Ok(n),
                None => Err(AppError::new(v.as_str(), "Failed to parse environment variable")),
            },
        }
    }

    /// The variable as a `bool` (`true` or `false`), or `default` when
    /// unset; an error for any other text.
    pub fn boolean(&self, env_name: &str, default: bool) -> (r: Result<bool, AppError>)
        ensures
            match env_lookup(headers_view(self.vars@), env_name@) {
                None => r == Ok::<bool, AppError>(default),
                Some(v) => if v == "true"@ {
                    r == Ok::<bool, AppError>(true)
                } else if v == "false"@ {
                    r == Ok::<bool, AppError>(false)
                } else {
                    r is Err
                },
            },
    {
        match lookup_env(&self.vars, env_name) {
            None => Ok(default),
            Some(v) => if crate::destination::same_text(v.as_str(), "true") {
                Ok(true)
            } else if crate::destination::same_text(v.as_str(), "false") {
                Ok(false)
            } else {
                Err(AppError::new(v.as_str(), "Failed to parse environment variable"))
            },
        }
    }
}

/// Where the relay's database is and how many connections it may hold.
#[derive(Debug)]
pub struct Database {
    pub host: String,
    pub name: String,
    pub user: String,
    pub pass: String,
    pub app_name: String,
    pub port: u16,
    pub min_pool_size: u32,
    pub max_pool_size: u32,
}

impl Database {
    /// The database settings from the environment: `DB_HOST`, `DB_NAME`,
    /// `DB_USER`, `DB_PASS`, `DB_PORT`, `DB_APP_NAME`, `DB_MIN_POOL_SIZE` and
    /// `DB_MAX_POOL_SIZE`, each with its default; an error when a number
    /// does not parse.
    pub fn from_env(env: &Environment) -> (r: Result<Database, AppError>)
        ensures
            r is Ok <==> (env_unsigned(headers_view(env.vars@), "DB_PORT"@, 5432, u16::MAX as nat) is Some
                && env_unsigned(headers_view(env.vars@), "DB_MIN_POOL_SIZE"@, 1, u32::MAX as nat) is Some
                && env_unsigned(headers_view(env.vars@), "DB_MAX_POOL_SIZE"@, 10, u32::MAX as nat) is Some),
            r matches Ok(d) ==> {
                let ev = headers_view(env.vars@);
                &&& d.host@ == env_text(ev, "DB_HOST"@, "localhost"@)
                &&& d.name@ == env_text(ev, "DB_NAME"@, "local"@)
                &&& d.user@ == env_text(ev, "DB_USER"@, "local"@)
                &&& d.pass@ == env_text(ev, "DB_PASS"@, "local"@)
                &&& d.app_name@ == env_text(ev, "DB_APP_NAME"@, "outbox-pattern-processor"@)
                &&& env_unsigned(ev, "DB_PORT"@, 5432, u16::MAX as nat) == Some(d.port as nat)
                &&& env_unsigned(ev, "DB_MIN_POOL_SIZE"@, 1, u32::MAX as nat) == Some(d.min_pool_size as nat)
                &&& env_unsigned(ev, "DB_MAX_POOL_SIZE"@, 10, u32::MAX as nat) == Some(d.max_pool_size as nat)
            },
    {
        let host = env.string("DB_HOST", "localhost");
        let name = env.string("DB_NAME", "local");
        let user = env.string("DB_USER", "local");
        let pass = env.string("DB_PASS", "local");
        let port = match env.u16("DB_PORT", 5432) {
            Ok(p) => p,
            Err(e) => return Err(e),
        };
        let app_name = env.string("DB_APP_NAME", "outbox-pattern-processor");
        let min_pool_size = match env.u32("DB_MIN_POOL_SIZE", 1) {
            Ok(p) => p,
            Err(e) => return Err(e),
        };
        let max_pool_size = match env.u32("DB_MAX_POOL_SIZE", 10) {
            Ok(p) => p,
            Err(e) => return Err(e),
        };
        Ok(Database { host, name, user, pass, app_name, port, min_pool_size, max_pool_size })
    }
}

} // verus!
