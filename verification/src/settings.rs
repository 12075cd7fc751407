//! Changing one setting of the configuration from text, as the command
//! line does with `section.key value`, and the number parsing it relies on.
use vstd::prelude::*;
use crate::config::{Config, InstanceConfig, NetworkConfig, TransferConfig, SecurityConfig};
use crate::text::{chars_of, concat_str, str_equal, is_digit};

verus! {

/// Why a number did not parse, as `str::parse` reports it.
#[derive(Debug, Clone, Copy, PartialEq, Eq, Structural)]
pub enum IntError {
    Empty,
    InvalidDigit,
    PosOverflow,
}

impl IntError {
    /// The text `str::parse` gives for this error.
    pub fn message(&self) -> (s: String)
        ensures
            s@ == int_error_text(*self),
    {
        match self {
            IntError::Empty => "cannot parse integer from empty string".to_string(),
            IntError::InvalidDigit => "invalid digit found in string".to_string(),
            IntError::PosOverflow => "number too large to fit in target type".to_string(),
        }
    }
}

pub open spec fn int_error_text(e: IntError) -> Seq<char> {
    match e {
        IntError::Empty => "cannot parse integer from empty string"@,
        IntError::InvalidDigit => "invalid digit found in string"@,
        IntError::PosOverflow => "number too large to fit in target type"@,
    }
}

/// Reads the digits of `d` left to right: the first character that is not
/// a digit is an invalid digit, and a value growing past `max` an overflow,
/// whichever comes first.
pub open spec fn scan_digits(d: Seq<char>, max: nat) -> Result<nat, IntError>
    decreases d.len(),
{
    if d.len() == 0 {
        Ok(0)
    } else {
        match scan_digits(d.drop_last(), max) {
            Err(e) => Err(e),
            Ok(v) => if !is_digit(d.last()) {
                Err(IntError::InvalidDigit)
            } else if v * 10 + ((d.last() as u32) - ('0' as u32)) > max {
                Err(IntError::PosOverflow)
            } else {
                Ok((v * 10 + ((d.last() as u32) - ('0' as u32))) as nat)
            },
        }
    }
}

/// What `str::parse` gives for an unsigned type whose largest value is
/// `max`: nothing parses from an empty string or a lone sign; a leading `+`
/// is passed over; then the digits are read.
pub open spec fn int_parse(s: Seq<char>, max: nat) -> Result<nat, IntError> {
    if s.len() == 0 {
        Err(IntError::Empty)
    } else if (s[0] == '+' || s[0] == '-') && s.len() == 1 {
        Err(IntError::InvalidDigit)
    } else if s[0] == '+' {
        scan_digits(s.drop_first(), max)
    } else {
        scan_digits(s, max)
    }
}

/// Parses an unsigned number no larger than `max`, reporting errors as
/// `str::parse` does.
pub fn parse_uint(text: &str, max: u64) -> (r: Result<u64, IntError>)
    ensures
        match int_parse(text@, max as nat) {
            Ok(v) => r == Ok::<u64, IntError>(v as u64),
            Err(e) => r == Err::<u64, IntError>(e),
        },
{
    let s = chars_of(text);
    if s.len() == 0 {
        return Err(IntError::Empty);
    }
    if (s[0] == '+' || s[0] == '-') && s.len() == 1 {
        return Err(IntError::InvalidDigit);
    }
    let start: usize = if s[0] == '+' {
        1
    } else {
        0
    };
    let ghost d = if s@[0] == '+' {
        s@.drop_first()
    } else {
        s@
    };
    assert(d =~= s@.subrange(start as int, s@.len() as int));
    assert(int_parse(text@, max as nat) == scan_digits(d, max as nat));
    assert(d.take(0) =~= Seq::<char>::empty());
    let mut v: u64 = 0;
    let mut i: usize = start;
    while i < s.len()
        invariant
            start <= i <= s@.len(),
            d == s@.subrange(start as int, s@.len() as int),
            int_parse(text@, max as nat) == scan_digits(d, max as nat),
            scan_digits(d.take(i - start), max as nat) == Ok::<nat, IntError>(v as nat),
            v <= max,
        decreases s@.len() - i,
    {
        let c = s[i];
        let ghost pre = d.take(i - start);
        assert(d.take(i + 1 - start).drop_last() =~= pre);
        assert(d.take(i + 1 - start).last() == c);
        if !('0' <= c && c <= '9') {
            proof {
                assert(scan_digits(d.take(i + 1 - start), max as nat) == Err::<nat, IntError>(IntError::InvalidDigit));
                lemma_scan_err_sticks(d, i + 1 - start, max as nat);
            }
            return Err(IntError::InvalidDigit);
        }
        let digit = (c as u32 - '0' as u32) as u64;
        if digit > max {
            proof {
                assert(v * 10 + digit > max);
                assert(scan_digits(d.take(i + 1 - start), max as nat) == Err::<nat, IntError>(IntError::PosOverflow));
                lemma_scan_err_sticks(d, i + 1 - start, max as nat);
            }
            return Err(IntError::PosOverflow);
        }
        if v > (max - digit) / 10 {
            proof {
                assert(v * 10 + digit > max) by (nonlinear_arith)
                    requires
                        v > (max - digit) / 10,
                        digit <= 9,
                        max >= digit,
                ;
                assert(scan_digits(d.take(i + 1 - start), max as nat) == Err::<nat, IntError>(IntError::PosOverflow));
                lemma_scan_err_sticks(d, i + 1 - start, max as nat);
            }
            return Err(IntError::PosOverflow);
        }
        assert(v * 10 + digit <= max) by (nonlinear_arith)
            requires
                v <= (max - digit) / 10,
                digit <= max,
        ;
        v = v * 10 + digit;
        i = i + 1;
    }
    assert(d.take(s@.len() - start) =~= d);
    Ok(v)
}

/// Once a prefix fails, every longer prefix fails the same way.
proof fn lemma_scan_err_sticks(d: Seq<char>, k: int, max: nat)
    requires
        0 <= k <= d.len(),
        scan_digits(d.take(k), max) is Err,
    ensures
        scan_digits(d, max) == scan_digits(d.take(k), max),
    decreases d.len() - k,
{
    if k < d.len() {
        assert(d.take(k + 1).drop_last() =~= d.take(k));
        lemma_scan_err_sticks(d, k + 1, max);
    } else {
        assert(d.take(k) =~= d);
    }
}

/// What `bool::from_str` gives: `true` and `false` only.
pub open spec fn bool_parse(s: Seq<char>) -> Option<bool> {
    if s == "true"@ {
        Some(true)
    } else if s == "false"@ {
        Some(false)
    } else {
        None
    }
}

pub fn parse_bool(text: &str) -> (r: Option<bool>)
    ensures
        r == bool_parse(text@),
{
    if str_equal(text, "true") {
        Some(true)
    } else if str_equal(text, "false") {
        Some(false)
    } else {
        None
    }
}

/// Why a setting was refused.
#[derive(Debug)]
pub enum SettingError {
    /// The key is not of the form `section.key`.
    BadKey,
    /// The section exists but has no such key; the whole key.
    UnknownKey(String),
    /// No such section; the section.
    UnknownSection(String),
    /// The value is not a number of the field's type.
    BadNumber(IntError),
    /// The value is neither `true` nor `false`.
    BadBool,
}

impl SettingError {
    /// The message shown for the error.
    pub fn message(&self) -> (s: String)
        ensures
            *self is BadKey ==> s@ == "配置项格式错误，应为 section.key（如 instance.name）"@,
            *self matches SettingError::UnknownKey(k) ==> s@ == "未知配置项: "@ + k@,
            *self matches SettingError::UnknownSection(k) ==> s@ == "未知配置节: "@ + k@,
            *self matches SettingError::BadNumber(e) ==> s@ == int_error_text(e),
            *self is BadBool ==> s@ == "provided string was not `true` or `false`"@,
    {
        match self {
            SettingError::BadKey => "配置项格式错误，应为 section.key（如 instance.name）".to_string(),
            SettingError::UnknownKey(k) => concat_str("未知配置项: ", k.as_str()),
            SettingError::UnknownSection(k) => concat_str("未知配置节: ", k.as_str()),
            SettingError::BadNumber(e) => e.message(),
            SettingError::BadBool => "provided string was not `true` or `false`".to_string(),
        }
    }
}

/// The parts of `key` split at every `.`.
pub open spec fn dot_parts(key: Seq<char>) -> Seq<Seq<char>>
    decreases key.len(),
{
    if key.len() == 0 {
        seq![Seq::empty()]
    } else {
        let p = dot_parts(key.drop_last());
        if key.last() == '.' {
            p.push(Seq::empty())
        } else {
            p.update(p.len() - 1, p.last().push(key.last()))
        }
    }
}

proof fn lemma_dot_parts_nonempty(key: Seq<char>)
    ensures
        dot_parts(key).len() >= 1,
    decreases key.len(),
{
    if key.len() > 0 {
        lemma_dot_parts_nonempty(key.drop_last());
    }
}

/// Splits `key` at its dots.
fn split_key(key: &str) -> (parts: Vec<Vec<char>>)
    ensures
        parts@.len() == dot_parts(key@).len(),
        forall|i: int| 0 <= i < parts@.len() ==> #[trigger] parts@[i]@ == dot_parts(key@)[i],
{
    let c = chars_of(key);
    let mut parts: Vec<Vec<char>> = Vec::new();
    parts.push(Vec::new());
    let mut i: usize = 0;
    assert(c@.take(0) =~= Seq::<char>::empty());
    while i < c.len()
        invariant
            i <= c@.len(),
            c@ == key@,
            parts@.len() == dot_parts(c@.take(i as int)).len(),
            parts@.len() >= 1,
            forall|k: int| 0 <= k < parts@.len() ==> #[trigger] parts@[k]@ == dot_parts(c@.take(i as int))[k],
        decreases c@.len() - i,
    {
        let ghost pre = c@.take(i as int);
        assert(c@.take(i + 1).drop_last() =~= pre);
        assert(c@.take(i + 1).last() == c@[i as int]);
        proof {
            lemma_dot_parts_nonempty(pre);
        }
        if c[i] == '.' {
            parts.push(Vec::new());
        } else {
            let n = parts.len();
            let mut last = parts.pop().unwrap();
            last.push(c[i]);
            parts.push(last);
            proof {
                assert forall|k: int| 0 <= k < parts@.len() implies #[trigger] parts@[k]@ == dot_parts(
                    c@.take(i + 1),
                )[k] by {
                    if k < n - 1 {
                        assert(parts@[k] == old_parts_at(parts@, k));
                    }
                }
            }
        }
        i = i + 1;
    }
    assert(c@.take(c@.len() as int) =~= c@);
    parts
}

spec fn old_parts_at(p: Seq<Vec<char>>, k: int) -> Vec<char> {
    p[k]
}

fn chars_eq(a: &Vec<char>, b: &str) -> (r: bool)
    ensures
        r == (a@ == b@),
{
    let s = crate::text::string_of(a.as_slice());
    str_equal(s.as_str(), b)
}

/// Sets the configuration field named by `key` (`section.field`) from the
/// text `value`, parsed for the field's type; the configuration is
/// unchanged when the key or the value is refused.
pub fn apply_setting(config: &mut Config, key: &str, value: &str) -> (r: Result<(), SettingError>)
    ensures
        dot_parts(key@).len() != 2 ==> r matches Err(SettingError::BadKey),
        r is Err ==> *final(config) == *old(config),
        dot_parts(key@).len() == 2 ==> {
            let section = dot_parts(key@)[0];
            let field = dot_parts(key@)[1];
            let c = *old(config);
            if section == "instance"@ {
                if field == "name"@ {
                    r is Ok && final(config).instance.instance_name@ == value@ && *final(config) == (Config {
                        instance: InstanceConfig { instance_name: final(config).instance.instance_name, ..c.instance },
                        ..c
                    })
                } else if field == "device_name"@ {
                    r is Ok && final(config).instance.device_name@ == value@ && *final(config) == (Config {
                        instance: InstanceConfig { device_name: final(config).instance.device_name, ..c.instance },
                        ..c
                    })
                } else {
                    r matches Err(SettingError::UnknownKey(k)) && k@ == key@
                }
            } else if section == "network"@ {
                if field == "discovery_port"@ {
                    match int_parse(value@, u16::MAX as nat) {
                        Ok(v) => r is Ok && *final(config) == (Config {
                            network: NetworkConfig { discovery_port: v as u16, ..c.network },
                            ..c
                        }),
                        Err(e) => r == Err::<(), SettingError>(SettingError::BadNumber(e)),
                    }
                } else if field == "transfer_port"@ {
                    match int_parse(value@, u16::MAX as nat) {
                        Ok(v) => r is Ok && *final(config) == (Config {
                            network: NetworkConfig { transfer_port: v as u16, ..c.network },
                            ..c
                        }),
                        Err(e) => r == Err::<(), SettingError>(SettingError::BadNumber(e)),
                    }
                } else if field == "broadcast_interval"@ {
                    match int_parse(value@, u64::MAX as nat) {
                        Ok(v) => r is Ok && *final(config) == (Config {
                            network: NetworkConfig { broadcast_interval: v as u64, ..c.network },
                            ..c
                        }),
                        Err(e) => r == Err::<(), SettingError>(SettingError::BadNumber(e)),
                    }
                } else {
                    r matches Err(SettingError::UnknownKey(k)) && k@ == key@
                }
            } else if section == "transfer"@ {
                if field == "chunk_size"@ {
                    match int_parse(value@, u32::MAX as nat) {
                        Ok(v) => r is Ok && *final(config) == (Config {
                            transfer: TransferConfig { chunk_size: v as u32, ..c.transfer },
                            ..c
                        }),
                        Err(e) => r == Err::<(), SettingError>(SettingError::BadNumber(e)),
                    }
                } else if field == "max_concurrent"@ {
                    match int_parse(value@, usize::MAX as nat) {
                        Ok(v) => r is Ok && *final(config) == (Config {
                            transfer: TransferConfig { max_concurrent: v as usize, ..c.transfer },
                            ..c
                        }),
                        Err(e) => r == Err::<(), SettingError>(SettingError::BadNumber(e)),
                    }
                } else if field == "enable_compression"@ {
                    match bool_parse(value@) {
                        Some(b) => r is Ok && *final(config) == (Config {
                            transfer: TransferConfig { enable_compression: b, ..c.transfer },
                            ..c
                        }),
                        None => r matches Err(SettingError::BadBool),
                    }
                } else {
                    r matches Err(SettingError::UnknownKey(k)) && k@ == key@
                }
            } else if section == "security"@ {
                if field == "require_auth"@ {
                    match bool_parse(value@) {
                        Some(b) => r is Ok && *final(config) == (Config {
                            security: SecurityConfig { require_auth: b, ..c.security },
                            ..c
                        }),
                        None => r matches Err(SettingError::BadBool),
                    }
                } else if field == "password"@ {
                    r is Ok && final(config).security.password@ == value@ && *final(config) == (Config {
                        security: SecurityConfig { password: final(config).security.password, ..c.security },
                        ..c
                    })
                } else {
                    r matches Err(SettingError::UnknownKey(k)) && k@ == key@
                }
            } else {
                r matches Err(SettingError::UnknownSection(k)) && k@ == section
            }
        },
{
    let parts = split_key(key);
    if parts.len() != 2 {
        return Err(SettingError::BadKey);
    }
    let section = &parts[0];
    let field = &parts[1];
    if chars_eq(section, "instance") {
        if chars_eq(field, "name") {
            config.instance.instance_name = value.to_string();
            Ok(())
        } else if chars_eq(field, "device_name") {
            config.instance.device_name = value.to_string();
            Ok(())
        } else {
            Err(SettingError::UnknownKey(key.to_string()))
        }
    } else if chars_eq(section, "network") {
        if chars_eq(field, "discovery_port") {
            match parse_uint(value, 65535) {
                Ok(v) => {
                    config.network.discovery_port = v as u16;
                    Ok(())
                },
                Err(e) => Err(SettingError::BadNumber(e)),
            }
        } else if chars_eq(field, "transfer_port") {
            match parse_uint(value, 65535) {
                Ok(v) => {
                    config.network.transfer_port = v as u16;
                    Ok(())
                },
                Err(e) => Err(SettingError::BadNumber(e)),
            }
        } else if chars_eq(field, "broadcast_interval") {
            match parse_uint(value, u64::MAX) {
                Ok(v) => {
                    config.network.broadcast_interval = v;
                    Ok(())
                },
                Err(e) => Err(SettingError::BadNumber(e)),
            }
        } else {
            Err(SettingError::UnknownKey(key.to_string()))
        }
    } else if chars_eq(section, "transfer") {
        if chars_eq(field, "chunk_size") {
            match parse_uint(value, 0xFFFF_FFFF) {
                Ok(v) => {
                    config.transfer.chunk_size = v as u32;
                    Ok(())
                },
                Err(e) => Err(SettingError::BadNumber(e)),
            }
        } else if chars_eq(field, "max_concurrent") {
            match parse_uint(value, usize::MAX as u64) {
                Ok(v) => {
                    config.transfer.max_concurrent = v as usize;
                    Ok(())
                },
                Err(e) => Err(SettingError::BadNumber(e)),
            }
        } else if chars_eq(field, "enable_compression") {
            match parse_bool(value) {
                Some(b) => {
                    config.transfer.enable_compression = b;
                    Ok(())
                },
                None => Err(SettingError::BadBool),
            }
        } else {
            Err(SettingError::UnknownKey(key.to_string()))
        }
    } else if chars_eq(section, "security") {
        if chars_eq(field, "require_auth") {
            match parse_bool(value) {
                Some(b) => {
                    config.security.require_auth = b;
                    Ok(())
                },
                None => Err(SettingError::BadBool),
            }
        } else if chars_eq(field, "password") {
            config.security.password = value.to_string();
            Ok(())
        } else {
            Err(SettingError::UnknownKey(key.to_string()))
        }
    } else {
        let s = crate::text::string_of(section.as_slice());
        Err(SettingError::UnknownSection(s))
    }
}

} // verus!
