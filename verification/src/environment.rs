//! Runtime-environment resolution: a snapshot of the process environment,
//! the typed single-variable resolver with optional defaults, and the
//! build/host-mode helpers that the settings layer consults.

use vstd::prelude::*;
use crate::errors::ConfigError;
use crate::strings::{lower_of, str_eq};

verus! {

pub const SETTING_HOST_MODE: &'static str = "host_mode";

pub const SETTING_HOST_ENVIRONMENT: &'static str = "host_environment";

pub const ENV_HOST_ENVIRONMENT: &'static str = "HOST_ENVIRONMENT";

#[derive(Clone, Copy, Debug, PartialEq, Eq, Structural)]
pub enum Environment {
    Production,
    Development,
}

impl Environment {
    /// The canonical display name, as the variant is written.
    pub fn as_str(&self) -> (r: &'static str)
        ensures
            *self is Production ==> r@ == "Production"@,
            *self is Development ==> r@ == "Development"@,
    {
        match self {
            Environment::Production => "Production",
            Environment::Development => "Development",
        }
    }
}

#[derive(Clone, Copy, Debug, PartialEq, Eq, Structural)]
pub enum HostMode {
    Production,
    Development,
}

impl HostMode {
    /// The canonical display name, as the variant is written.
    pub fn as_str(&self) -> (r: &'static str)
        ensures
            *self is Production ==> r@ == "Production"@,
            *self is Development ==> r@ == "Development"@,
    {
        match self {
            HostMode::Production => "Production",
            HostMode::Development => "Development",
        }
    }
}

#[derive(Clone, Copy, Debug, PartialEq, Eq, Structural)]
pub enum HostType {
    Local,
    Container,
}

/// Whether the process runs in development mode; decided by whether this
/// is a debug build, which the caller reports.
pub fn is_dev_mode(debug_build: bool) -> (r: bool)
    ensures
        r == debug_build,
{
    debug_build
}

pub fn is_prod_mode(debug_build: bool) -> (r: bool)
    ensures
        r == !debug_build,
{
    !is_dev_mode(debug_build)
}

pub fn get_host_mode(debug_build: bool) -> (m: HostMode)
    ensures
        debug_build ==> m is Development,
        !debug_build ==> m is Production,
{
    if is_dev_mode(debug_build) {
        return HostMode::Development;
    }
    HostMode::Production
}

/// Whether the host is the local machine; decided from the caller's
/// container-detection result.
pub fn is_local_host(docker_host: bool) -> (r: bool)
    ensures
        r == !docker_host,
{
    !docker_host
}

pub fn get_host_type(docker_host: bool) -> (t: HostType)
    ensures
        docker_host ==> t is Container,
        !docker_host ==> t is Local,
{
    if docker_host {
        return HostType::Container;
    }
    HostType::Local
}

/// Decides the environment-initialization action: whether the caller
/// should load a `.env` file (only a development build on a local host
/// does).
pub fn init_environment(debug_build: bool, local_host: bool) -> (load_dot_env: bool)
    ensures
        load_dot_env == (debug_build && local_host),
{
    if is_dev_mode(debug_build) {
        init_dev_environment(local_host)
    } else {
        init_prod_environment()
    }
}

/// In development mode the `.env` file is loaded only on a local host.
pub fn init_dev_environment(local_host: bool) -> (load_dot_env: bool)
    ensures
        load_dot_env == local_host,
{
    local_host
}

/// Production never loads a `.env` file.
pub fn init_prod_environment() -> (load_dot_env: bool)
    ensures
        !load_dot_env,
{
    false
}

/// The values accepted for the host-environment variable, compared after
/// lower-casing.
pub open spec fn spec_parse_environment(s: Seq<char>) -> Option<Environment> {
    let low = lower_of(s);
    if low == "dev"@ || low == "development"@ {
        Some(Environment::Development)
    } else if low == "prod"@ || low == "production"@ {
        Some(Environment::Production)
    } else {
        None
    }
}

/// Reads the host-environment variable's value; an unrecognized value is
/// a hard misconfiguration the caller must treat as fatal.
pub fn parse_environment(s: &str) -> (r: Option<Environment>)
    ensures
        r == spec_parse_environment(s@),
{
    let low = s.to_lowercase();
    if str_eq(low.as_str(), "dev") || str_eq(low.as_str(), "development") {
        Some(Environment::Development)
    } else if str_eq(low.as_str(), "prod") || str_eq(low.as_str(), "production") {
        Some(Environment::Production)
    } else {
        None
    }
}

/// A snapshot of the process environment: variable names with their
/// values, in the order the process reported them. Lookups return the
/// first binding of a name.
pub struct EnvVars {
    pub vars: Vec<(String, String)>,
}

/// First binding of `name`, if any.
pub open spec fn env_lookup(vs: Seq<(String, String)>, name: Seq<char>) -> Option<Seq<char>>
    decreases vs.len(),
{
    if vs.len() == 0 {
        None
    } else if vs[0].0@ == name {
        Some(vs[0].1@)
    } else {
        env_lookup(vs.drop_first(), name)
    }
}

proof fn lemma_env_lookup_skip(vs: Seq<(String, String)>, name: Seq<char>, i: int)
    requires
        0 <= i <= vs.len(),
        forall|k: int| 0 <= k < i ==> vs[k].0@ != name,
    ensures
        env_lookup(vs, name) == env_lookup(vs.skip(i), name),
    decreases i,
{
    if i > 0 {
        assert(vs.drop_first() =~= vs.skip(1));
        assert(vs.skip(1).skip(i - 1) =~= vs.skip(i));
        assert forall|k: int| 0 <= k < i - 1 implies vs.skip(1)[k].0@ != name by {
            assert(vs.skip(1)[k] == vs[k + 1]);
        }
        lemma_env_lookup_skip(vs.skip(1), name, i - 1);
    } else {
        assert(vs.skip(0) =~= vs);
    }
}

impl EnvVars {
    pub fn new() -> (r: EnvVars)
        ensures
            r.vars@.len() == 0,
    {
        EnvVars { vars: Vec::new() }
    }

    /// Adds one binding at the end of the snapshot.
    pub fn push(&mut self, name: String, value: String)
        ensures
            final(self).vars@ == old(self).vars@.push((name, value)),
    {
        self.vars.push((name, value));
    }

    /// Looks a variable up, returning a copy of its value.
    pub fn get(&self, name: &str) -> (r: Option<String>)
        ensures
            match r {
                Some(v) => env_lookup(self.vars@, name@) == Some(v@),
                None => env_lookup(self.vars@, name@) is None,
            },
    {
        let n = self.vars.len();
        let mut i: usize = 0;
        while i < n
            invariant
                0 <= i <= n,
                n == self.vars@.len(),
                forall|k: int| 0 <= k < i ==> self.vars@[k].0@ != name@,
            decreases n - i,
        {
            if str_eq(self.vars[i].0.as_str(), name) {
                proof {
                    lemma_env_lookup_skip(self.vars@, name@, i as int);
                    assert(self.vars@.skip(i as int)[0] == self.vars@[i as int]);
                }
                return Some(self.vars[i].1.clone());
            }
            i += 1;
        }
        proof {
            lemma_env_lookup_skip(self.vars@, name@, n as int);
        }
        None
    }
}

/// A type a setting can be resolved at: how a raw environment string
/// reads as a value of the type.
pub trait EnvValue: Sized {
    /// Whether the string reads as a value of this type.
    spec fn can_parse(s: Seq<char>) -> bool;

    /// Whether the string reads as exactly this value.
    spec fn parses_to(s: Seq<char>, v: Self) -> bool;

    fn parse_env_value(s: &str) -> (r: Option<Self>)
        ensures
            match r {
                Some(v) => Self::can_parse(s@) && Self::parses_to(s@, v),
                None => !Self::can_parse(s@),
            },
    ;
}

impl EnvValue for bool {
    /// `str::parse::<bool>` semantics: exactly `true` or `false`.
    open spec fn can_parse(s: Seq<char>) -> bool {
        s == "true"@ || s == "false"@
    }

    open spec fn parses_to(s: Seq<char>, v: bool) -> bool {
        (s == "true"@ && v) || (s == "false"@ && !v)
    }

    fn parse_env_value(s: &str) -> (r: Option<bool>) {
        if str_eq(s, "true") {
            Some(true)
        } else if str_eq(s, "false") {
            Some(false)
        } else {
            None
        }
    }
}

impl EnvValue for String {
    /// Any string reads as itself.
    open spec fn can_parse(s: Seq<char>) -> bool {
        true
    }

    open spec fn parses_to(s: Seq<char>, v: String) -> bool {
        v@ == s
    }

    fn parse_env_value(s: &str) -> (r: Option<String>) {
        Some(s.to_owned())
    }
}

impl EnvValue for i32 {
    open spec fn can_parse(s: Seq<char>) -> bool {
        parse_i32_spec(s) is Some
    }

    open spec fn parses_to(s: Seq<char>, v: i32) -> bool {
        parse_i32_spec(s) == Some(v)
    }

    fn parse_env_value(s: &str) -> (r: Option<i32>) {
        parse_i32(s)
    }
}

/// Resolves one environment variable at a type, with an optional
/// default. An unset or unreadable variable falls back to the default
/// when one is declared, and is a fatal configuration error otherwise.
pub fn get_env_var<T: EnvValue>(env: &EnvVars, name: &str, default: Option<T>) -> (r: Result<
    T,
    ConfigError,
>)
    ensures
        match env_lookup(env.vars@, name@) {
            None => match default {
                Some(d) => r matches Ok(v) && v == d,
                None => r matches Err(ConfigError::NotDefined(n)) && n@ == name@,
            },
            Some(raw) => if T::can_parse(raw) {
                r matches Ok(v) && T::parses_to(raw, v)
            } else {
                match default {
                    Some(d) => r matches Ok(v) && v == d,
                    None => r matches Err(ConfigError::NotParsable(n)) && n@ == name@,
                }
            },
        },
{
    let raw = env.get(name);
    match raw {
        Some(value) => {
            let parsed = T::parse_env_value(value.as_str());
            match parsed {
                Some(v) => Ok(v),
                None => match default {
                    Some(d) => Ok(d),
                    None => Err(ConfigError::NotParsable(name.to_owned())),
                },
            }
        },
        None => match default {
            Some(d) => Ok(d),
            None => Err(ConfigError::NotDefined(name.to_owned())),
        },
    }
}

pub open spec fn is_ascii_digit(c: char) -> bool {
    48 <= (c as u32) && (c as u32) <= 57
}

pub open spec fn digit_val(c: char) -> int {
    (c as u32) - 48
}

/// The value of a digit string, most significant digit first.
pub open spec fn digits_val(s: Seq<char>) -> int
    decreases s.len(),
{
    if s.len() == 0 {
        0
    } else {
        digits_val(s.drop_last()) * 10 + digit_val(s.last())
    }
}

pub open spec fn all_digits(s: Seq<char>) -> bool {
    forall|i: int| 0 <= i < s.len() ==> is_ascii_digit(#[trigger] s[i])
}

/// `str::parse::<i32>` semantics: an optional single sign, then at least
/// one digit and nothing else, with the value in range.
pub open spec fn parse_i32_spec(s: Seq<char>) -> Option<i32> {
    let neg = s.len() > 0 && s[0] == '-';
    let ds = if s.len() > 0 && (s[0] == '-' || s[0] == '+') {
        s.drop_first()
    } else {
        s
    };
    if ds.len() == 0 || !all_digits(ds) {
        None
    } else {
        let v = if neg {
            -digits_val(ds)
        } else {
            digits_val(ds)
        };
        if i32::MIN <= v <= i32::MAX {
            Some(v as i32)
        } else {
            None
        }
    }
}

pub open spec fn pow10(k: nat) -> int
    decreases k,
{
    if k == 0 {
        1
    } else {
        10 * pow10((k - 1) as nat)
    }
}

proof fn lemma_pow10_pos(k: nat)
    ensures
        pow10(k) >= 1,
    decreases k,
{
    if k > 0 {
        lemma_pow10_pos((k - 1) as nat);
    }
}

proof fn lemma_pow10_big(k: nat)
    requires
        k >= 10,
    ensures
        pow10(k) >= 10000000000,
    decreases k,
{
    if k == 10 {
        reveal_with_fuel(pow10, 11);
        assert(pow10(10) == 10000000000);
    } else {
        lemma_pow10_big((k - 1) as nat);
        lemma_pow10_pos((k - 1) as nat);
    }
}

/// Digits bound their value: a digit string's value is below
/// `pow10(len)`.
proof fn lemma_digits_upper(s: Seq<char>)
    requires
        all_digits(s),
    ensures
        0 <= digits_val(s) < pow10(s.len()),
    decreases s.len(),
{
    if s.len() > 0 {
        assert(all_digits(s.drop_last())) by {
            assert(forall|i: int| 0 <= i < s.len() - 1 ==> s.drop_last()[i] == s[i]);
        }
        lemma_digits_upper(s.drop_last());
        assert(is_ascii_digit(s.last()));
    }
}

/// A digit string with a leading nonzero digit reaches `pow10(len - 1)`.
proof fn lemma_digits_lower(s: Seq<char>)
    requires
        s.len() > 0,
        all_digits(s),
        s[0] != '0',
    ensures
        digits_val(s) >= pow10((s.len() - 1) as nat),
    decreases s.len(),
{
    if s.len() == 1 {
        assert(is_ascii_digit(s[0]));
        assert((s[0] as u32) != 48) by {
            if (s[0] as u32) == 48 {
                vstd::utf8::char_u32_cast(s[0], 48);
                assert(s[0] == '0');
            }
        }
        assert(s.drop_last() =~= Seq::<char>::empty());
        assert(s.last() == s[0]);
        assert(digits_val(Seq::<char>::empty()) == 0);
        assert(digits_val(s) == digit_val(s[0]));
    } else {
        assert(s.drop_last()[0] == s[0]);
        assert(all_digits(s.drop_last())) by {
            assert(forall|i: int| 0 <= i < s.len() - 1 ==> s.drop_last()[i] == s[i]);
        }
        lemma_digits_lower(s.drop_last());
        assert(is_ascii_digit(s.last()));
    }
}

/// Leading zeros do not change a digit string's value.
proof fn lemma_digits_zeros(s: Seq<char>, z: int)
    requires
        0 <= z <= s.len(),
        forall|t: int| 0 <= t < z ==> s[t] == '0',
    ensures
        digits_val(s) == digits_val(s.skip(z)),
    decreases s.len(),
{
    if s.len() == 0 || z == 0 {
        assert(s.skip(0) =~= s);
    } else if z == s.len() {
        assert(s.skip(z) =~= Seq::<char>::empty());
        assert(digit_val(s.last()) == 0) by {
            reveal_strlit("0");
            assert(s.last() == '0');
        }
        assert(forall|t: int| 0 <= t < z - 1 ==> s.drop_last()[t] == s[t]);
        lemma_digits_zeros(s.drop_last(), z - 1);
        assert(s.drop_last().skip(z - 1) =~= Seq::<char>::empty());
    } else {
        assert(forall|t: int| 0 <= t < z ==> s.drop_last()[t] == s[t]);
        lemma_digits_zeros(s.drop_last(), z);
        assert(s.skip(z).drop_last() =~= s.drop_last().skip(z));
        assert(s.skip(z).last() == s.last());
        assert(s.skip(z).len() > 0);
    }
}

/// Finds the first position at or after `start` that is not the digit
/// `0`.
fn first_nonzero(s: &str, start: usize) -> (k: usize)
    requires
        start <= s@.len(),
    ensures
        start <= k <= s@.len(),
        forall|t: int| start <= t < k ==> s@[t] == '0',
        k < s@.len() ==> s@[k as int] != '0',
{
    let n = s.unicode_len();
    let mut k = start;
    while k < n
        invariant
            start <= k <= n,
            n == s@.len(),
            forall|t: int| start <= t < k ==> s@[t] == '0',
        decreases n - k,
    {
        if s.get_char(k) != '0' {
            return k;
        }
        k += 1;
    }
    k
}

/// Reads a decimal integer with an optional sign, as `str::parse::<i32>`
/// does.
pub fn parse_i32(s: &str) -> (r: Option<i32>)
    ensures
        r == parse_i32_spec(s@),
{
    let n = s.unicode_len();
    if n == 0 {
        return None;
    }
    let c0 = s.get_char(0);
    let neg = c0 == '-';
    let start: usize = if neg || c0 == '+' {
        1
    } else {
        0
    };
    let ghost ds = if start == 1 {
        s@.drop_first()
    } else {
        s@
    };
    proof {
        assert(forall|t: int| 0 <= t < ds.len() ==> ds[t] == s@[t + start]);
    }
    if start >= n {
        proof {
            assert(ds.len() == 0);
        }
        return None;
    }
    let mut j = start;
    while j < n
        invariant
            start <= j <= n,
            n == s@.len(),
            start == 0 || start == 1,
            start < n,
            n > 0,
            (start == 1) == (s@[0] == '-' || s@[0] == '+'),
            neg == (s@[0] == '-'),
            ds == (if start == 1 {
                s@.drop_first()
            } else {
                s@
            }),
            forall|t: int| 0 <= t < j - start ==> is_ascii_digit(#[trigger] ds[t]),
        decreases n - j,
    {
        let c = s.get_char(j);
        let u = c as u32;
        if u < 48 || u > 57 {
            proof {
                assert(ds[j - start] == s@[j as int]);
                assert(!is_ascii_digit(ds[j - start]));
                assert(!all_digits(ds));
            }
            return None;
        }
        proof {
            assert(ds[j - start] == s@[j as int]);
        }
        j += 1;
    }
    proof {
        assert(all_digits(ds));
    }
    let k = first_nonzero(s, start);
    let ghost z = k - start;
    proof {
        assert(forall|t: int| 0 <= t < z ==> ds[t] == s@[t + start] && ds[t] == '0');
        lemma_digits_zeros(ds, z as int);
        assert(ds.skip(z as int) =~= s@.skip(k as int));
    }
    let m = n - k;
    if m > 10 {
        proof {
            let sig = s@.skip(k as int);
            assert(sig[0] == s@[k as int]);
            assert(forall|t: int| 0 <= t < sig.len() ==> sig[t] == ds[t + z]);
            assert(all_digits(sig));
            lemma_digits_lower(sig);
            lemma_pow10_big((sig.len() - 1) as nat);
            assert(digits_val(ds) >= 10000000000);
        }
        return None;
    }
    let mut acc: u64 = 0;
    let mut p = k;
    proof {
        assert(s@.subrange(k as int, k as int) =~= Seq::<char>::empty());
    }
    while p < n
        invariant
            k <= p <= n,
            n == s@.len(),
            n - k <= 10,
            all_digits(ds),
            ds == (if start == 1 {
                s@.drop_first()
            } else {
                s@
            }),
            start == 0 || start == 1,
            start <= k,
            start < n,
            n > 0,
            (start == 1) == (s@[0] == '-' || s@[0] == '+'),
            neg == (s@[0] == '-'),
            forall|t: int| 0 <= t < ds.len() ==> ds[t] == s@[t + start],
            forall|t: int| (k - start) <= t < ds.len() ==> is_ascii_digit(#[trigger] ds[t]),
            digits_val(ds) == digits_val(s@.skip(k as int)),
            acc == digits_val(s@.subrange(k as int, p as int)),
            acc < pow10((p - k) as nat),
        decreases n - p,
    {
        let c = s.get_char(p);
        let u = c as u32;
        proof {
            assert(ds[p - start] == s@[p as int]);
            assert(is_ascii_digit(s@[p as int]));
            let pre = s@.subrange(k as int, p as int);
            let cur = s@.subrange(k as int, p as int + 1);
            assert(cur.drop_last() =~= pre);
            assert(cur.last() == s@[p as int]);
            lemma_pow10_pos((p - k) as nat);
            assert(pow10((p + 1 - k) as nat) == 10 * pow10((p - k) as nat));
            assert(pow10((10) as nat) == 10000000000) by {
                reveal_with_fuel(pow10, 11);
            }
            assert(pow10((p - k) as nat) <= pow10(10)) by {
                lemma_pow10_mono((p - k) as nat, 10);
            }
        }
        acc = acc * 10 + ((u - 48) as u64);
        p += 1;
    }
    proof {
        assert(s@.subrange(k as int, n as int) =~= s@.skip(k as int));
        assert(acc == digits_val(ds));
        lemma_digits_upper(ds);
    }
    if neg {
        if acc > 2147483648u64 {
            return None;
        }
        let v: i64 = -(acc as i64);
        Some(v as i32)
    } else {
        if acc > 2147483647u64 {
            return None;
        }
        Some(acc as i32)
    }
}

proof fn lemma_pow10_mono(a: nat, b: nat)
    requires
        a <= b,
    ensures
        pow10(a) <= pow10(b),
    decreases b,
{
    if a < b {
        lemma_pow10_mono(a, (b - 1) as nat);
        lemma_pow10_pos((b - 1) as nat);
    }
}

} // verus!
