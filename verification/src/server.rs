//! Startup-time validation of the listener's bind address. Binding and
//! accepting connections are transport work and live outside the library;
//! what is checked here is that the configuration names a host and a port.

use vstd::prelude::*;

use crate::config::ServerConfig;
use crate::errors::ServerError;
use vstd::string::StrSliceExecFns;
use vstd::string::StringExecFns;

verus! {

/// The value of a decimal digit string, most significant digit first.
pub open spec fn dec_val(s: Seq<char>) -> nat
    decreases s.len(),
{
    if s.len() == 0 {
        0
    } else {
        (10 * dec_val(s.drop_last()) + (s.last() as u32 - 48)) as nat
    }
}

/// Whether `s` is one or more decimal digits.
pub open spec fn is_digits(s: Seq<char>) -> bool {
    s.len() > 0 && (forall|i: int| 0 <= i < s.len() ==> '0' <= #[trigger] s[i] <= '9')
}

/// The 16-bit port a property value names: a non-empty string of decimal
/// digits whose value fits.
pub open spec fn spec_parse_u16(s: Seq<char>) -> Option<u16> {
    if is_digits(s) && dec_val(s) <= 65535 {
        Some(dec_val(s) as u16)
    } else {
        None
    }
}

/// A digit string is worth at least any of its prefixes.
proof fn lemma_dec_val_prefix(s: Seq<char>, i: int)
    requires
        0 <= i <= s.len(),
        forall|j: int| 0 <= j < s.len() ==> '0' <= #[trigger] s[j] <= '9',
    ensures
        dec_val(s) >= dec_val(s.take(i)),
    decreases s.len(),
{
    if i < s.len() {
        lemma_dec_val_prefix(s.drop_last(), i);
        assert(s.drop_last().take(i) =~= s.take(i));
        assert(forall|j: int| 0 <= j < s.drop_last().len() ==> #[trigger] s.drop_last()[j] == s[j]);
    } else {
        assert(s.take(i) =~= s);
    }
}

/// Parses a decimal 16-bit value, rejecting anything else.
#[verifier::loop_isolation(false)]
pub fn parse_u16(value: &str) -> (r: Option<u16>)
    ensures
        r == spec_parse_u16(value@),
{
    let n = value.unicode_len();
    if n == 0 {
        return None;
    }
    let mut acc: u32 = 0;
    let mut i: usize = 0;
    proof {
        assert(value@.take(0) =~= Seq::<char>::empty());
    }
    while i < n
        invariant
            i <= n,
            n == value@.len(),
            acc == dec_val(value@.take(i as int)),
            acc <= 65535,
            forall|j: int| 0 <= j < i ==> '0' <= #[trigger] value@[j] <= '9',
        decreases n - i,
    {
        let c = value.get_char(i);
        if c < '0' || c > '9' {
            return None;
        }
        let d: u32 = (c as u32) - 48;
        proof {
            assert(value@.take(i + 1).drop_last() =~= value@.take(i as int));
            assert(value@.take(i + 1).last() == value@[i as int]);
        }
        acc = acc * 10 + d;
        i = i + 1;
        if acc > 65535 {
            proof {
                if is_digits(value@) {
                    lemma_dec_val_prefix(value@, i as int);
                }
            }
            return None;
        }
    }
    proof {
        assert(value@.take(n as int) =~= value@);
    }
    Some(acc as u16)
}

/// The address the listener must bind, from the required `server-host` and
/// `server-port` properties. A missing key, or a port value that is not a
/// 16-bit decimal number, is reported as the missing property.
pub fn bind_target(config: &ServerConfig) -> (r: Result<(String, u16), ServerError>)
    ensures
        match config.spec_get("server-host"@) {
            None => r matches Err(ServerError::MissingProperty(k)) && k@ == "server-host"@,
            Some(h) => match config.spec_get("server-port"@) {
                None => r matches Err(ServerError::MissingProperty(k)) && k@ == "server-port"@,
                Some(p) => match spec_parse_u16(p) {
                    Some(pv) => r matches Ok(t) && t.0@ == h && t.1 == pv,
                    None => r matches Err(ServerError::MissingProperty(k)) && k@ == "server-port"@,
                },
            },
        },
{
    let host = match config.get("server-host") {
        Some(h) => h.clone(),
        None => {
            return Err(ServerError::MissingProperty(String::from_str("server-host")));
        },
    };
    let port_value = match config.get("server-port") {
        Some(p) => p,
        None => {
            return Err(ServerError::MissingProperty(String::from_str("server-port")));
        },
    };
    match parse_u16(port_value.as_str()) {
        Some(port) => Ok((host, port)),
        None => Err(ServerError::MissingProperty(String::from_str("server-port"))),
    }
}

} // verus!
