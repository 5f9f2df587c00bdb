//! The configuration surface: listen address, port, admission bound and
//! per-read buffer bound, loaded once at startup and immutable afterwards.
//! Reading the configuration file is the caller's business; this module
//! holds the values and derives the listen address text.

use vstd::prelude::*;
use vstd::string::StringExecFns;

verus! {

/// The decimal digit character for `d` (expected below ten).
pub open spec fn digit_char(d: nat) -> char {
    if d == 0 {
        '0'
    } else if d == 1 {
        '1'
    } else if d == 2 {
        '2'
    } else if d == 3 {
        '3'
    } else if d == 4 {
        '4'
    } else if d == 5 {
        '5'
    } else if d == 6 {
        '6'
    } else if d == 7 {
        '7'
    } else if d == 8 {
        '8'
    } else {
        '9'
    }
}

/// The decimal representation of `n`, most significant digit first,
/// without leading zeros (`0` itself is the single digit `0`).
pub open spec fn dec_chars(n: nat) -> Seq<char>
    decreases n,
{
    if n < 10 {
        seq![digit_char(n)]
    } else {
        dec_chars(n / 10).push(digit_char(n % 10))
    }
}

/// The listen address text of a configuration: `<ip>:<port>`.
pub open spec fn address_chars(ip: Seq<char>, port: u16) -> Seq<char> {
    ip + seq![':'] + dec_chars(port as nat)
}

/// The one-character string for the decimal digit `d`.
fn digit_str(d: u16) -> (r: &'static str)
    requires
        d < 10,
    ensures
        r@ == seq![digit_char(d as nat)],
{
    match d {
        0 => {
            proof {
                reveal_strlit("0");
            }
            "0"
        },
        1 => {
            proof {
                reveal_strlit("1");
            }
            "1"
        },
        2 => {
            proof {
                reveal_strlit("2");
            }
            "2"
        },
        3 => {
            proof {
                reveal_strlit("3");
            }
            "3"
        },
        4 => {
            proof {
                reveal_strlit("4");
            }
            "4"
        },
        5 => {
            proof {
                reveal_strlit("5");
            }
            "5"
        },
        6 => {
            proof {
                reveal_strlit("6");
            }
            "6"
        },
        7 => {
            proof {
                reveal_strlit("7");
            }
            "7"
        },
        8 => {
            proof {
                reveal_strlit("8");
            }
            "8"
        },
        _ => {
            proof {
                reveal_strlit("9");
            }
            "9"
        },
    }
}

/// The decimal text of `n`.
pub fn u16_string(n: u16) -> (r: String)
    ensures
        r@ == dec_chars(n as nat),
    decreases n,
{
    if n < 10 {
        String::from_str(digit_str(n))
    } else {
        let mut s = u16_string(n / 10);
        s.append(digit_str(n % 10));
        proof {
            assert(s@ =~= dec_chars((n / 10) as nat).push(digit_char((n % 10) as nat)));
        }
        s
    }
}

/// The relay's startup configuration.
pub struct Config {
    pub ip: String,
    pub port: u16,
    pub max_clients: usize,
    pub max_acceptable_buffer: usize,
}

impl Config {
    /// A configuration from explicit values.
    pub fn new(ip: String, port: u16, max_clients: usize, max_acceptable_buffer: usize) -> (c:
        Config)
        ensures
            c.ip@ == ip@,
            c.port == port,
            c.max_clients == max_clients,
            c.max_acceptable_buffer == max_acceptable_buffer,
    {
        Config { ip, port, max_clients, max_acceptable_buffer }
    }

    /// The listen address text, `<ip>:<port>`.
    pub fn get_address(&self) -> (r: String)
        ensures
            r@ == address_chars(self.ip@, self.port),
    {
        let mut s = self.ip.clone();
        proof {
            reveal_strlit(":");
        }
        s.append(":");
        let p = u16_string(self.port);
        s.append(p.as_str());
        proof {
            assert(s@ =~= address_chars(self.ip@, self.port));
        }
        s
    }

    /// The admission bound.
    pub fn get_max_clients(&self) -> (n: usize)
        ensures
            n == self.max_clients,
    {
        self.max_clients
    }

    /// The per-read buffer bound.
    pub fn get_acceptable_buffer(&self) -> (n: usize)
        ensures
            n == self.max_acceptable_buffer,
    {
        self.max_acceptable_buffer
    }
}

impl Default for Config {
    /// The fallback configuration: loopback on port 2424, four clients,
    /// 256-byte reads.
    fn default() -> (c: Config)
        ensures
            c.ip@ == "127.0.0.1"@,
            c.port == 2424,
            c.max_clients == 4,
            c.max_acceptable_buffer == 256,
    {
        Config {
            ip: String::from_str("127.0.0.1"),
            port: 2424,
            max_clients: 4,
            max_acceptable_buffer: 256,
        }
    }
}

} // verus!
