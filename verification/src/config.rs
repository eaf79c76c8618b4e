//! The tunnel configuration: the plain data the tool persists per profile,
//! its assembly from optional command-line values, the `ssh` argument list
//! it stands for, and the filtering of profile file names.

use vstd::prelude::*;
use vstd::string::{StringExecFns, StrSliceExecFns};

use crate::textenc::{all_ascii, ascii_chars_of, bytes_to_string, lemma_ascii_utf8};

verus! {

/// A saved tunnel profile: the two hops, their ports, an optional local
/// port to forward, and the optionally sealed passwords for the two hosts.
pub struct SshConfig {
    pub jump_host_user: String,
    pub jump_host: String,
    pub target_host_user: String,
    pub target_host: String,
    pub jump_port: i16,
    pub target_port: i16,
    pub port_forward: Option<i16>,
    pub enc1: Option<String>,
    pub enc2: Option<String>,
}

/// A required host field that was not supplied.
#[derive(Clone, Copy, Debug, PartialEq, Eq, Structural)]
pub enum ConfigError {
    MissingJumpHostUser,
    MissingJumpHostAddress,
    MissingTargetHostUser,
    MissingTargetHostAddress,
}

impl SshConfig {
    /// Assembles a configuration from optional values: the four host fields
    /// are required and reported missing in order, the ports default to 22,
    /// and the sealed password slots start empty.
    pub fn from_parts(
        jump_host_user: Option<String>,
        jump_host_address: Option<String>,
        target_host_user: Option<String>,
        target_host_address: Option<String>,
        jump_port: Option<i16>,
        target_port: Option<i16>,
        port_forward: Option<i16>,
    ) -> (r: Result<SshConfig, ConfigError>)
        ensures
            (match r {
                Ok(c) => {
                    &&& jump_host_user matches Some(u) && c.jump_host_user == u
                    &&& jump_host_address matches Some(a) && c.jump_host == a
                    &&& target_host_user matches Some(u) && c.target_host_user == u
                    &&& target_host_address matches Some(a) && c.target_host == a
                    &&& c.jump_port == (match jump_port {
                        Some(p) => p,
                        None => 22i16,
                    })
                    &&& c.target_port == (match target_port {
                        Some(p) => p,
                        None => 22i16,
                    })
                    &&& c.port_forward == port_forward
                    &&& c.enc1 is None
                    &&& c.enc2 is None
                },
                Err(e) => {
                    &&& (e == ConfigError::MissingJumpHostUser <==> jump_host_user is None)
                    &&& (e == ConfigError::MissingJumpHostAddress <==> jump_host_user is Some
                        && jump_host_address is None)
                    &&& (e == ConfigError::MissingTargetHostUser <==> jump_host_user is Some
                        && jump_host_address is Some && target_host_user is None)
                    &&& (e == ConfigError::MissingTargetHostAddress <==> jump_host_user is Some
                        && jump_host_address is Some && target_host_user is Some
                        && target_host_address is None)
                },
            }),
    {
        let jump_host_user = match jump_host_user {
            Some(u) => u,
            None => {
                return Err(ConfigError::MissingJumpHostUser);
            },
        };
        let jump_host = match jump_host_address {
            Some(a) => a,
            None => {
                return Err(ConfigError::MissingJumpHostAddress);
            },
        };
        let target_host_user = match target_host_user {
            Some(u) => u,
            None => {
                return Err(ConfigError::MissingTargetHostUser);
            },
        };
        let target_host = match target_host_address {
            Some(a) => a,
            None => {
                return Err(ConfigError::MissingTargetHostAddress);
            },
        };
        let jump_port = match jump_port {
            Some(p) => p,
            None => 22,
        };
        let target_port = match target_port {
            Some(p) => p,
            None => 22,
        };
        Ok(SshConfig {
            jump_host_user,
            jump_host,
            target_host_user,
            target_host,
            jump_port,
            target_port,
            port_forward,
            enc1: None,
            enc2: None,
        })
    }
}

/// The ASCII digits of a non-negative number, most significant first.
pub open spec fn dec_digit_bytes(n: nat) -> Seq<u8>
    decreases n,
{
    if n < 10 {
        seq![(48 + n) as u8]
    } else {
        dec_digit_bytes((n / 10) as nat) + seq![(48 + n % 10) as u8]
    }
}

/// The ASCII decimal spelling of an integer, with a leading minus sign when
/// it is negative.
pub open spec fn dec_bytes(n: int) -> Seq<u8> {
    if n < 0 {
        seq![45u8] + dec_digit_bytes((-n) as nat)
    } else {
        dec_digit_bytes(n as nat)
    }
}

/// The decimal spelling of an integer, as characters.
pub open spec fn dec_chars(n: int) -> Seq<char> {
    ascii_chars_of(dec_bytes(n))
}

/// Decimal digit bytes are ASCII.
proof fn lemma_dec_digit_bytes_ascii(n: nat)
    ensures
        all_ascii(dec_digit_bytes(n)),
        dec_digit_bytes(n).len() >= 1,
    decreases n,
{
    if n >= 10 {
        lemma_dec_digit_bytes_ascii((n / 10) as nat);
    }
}

/// Appends the decimal digits of `n` to `v`.
fn push_dec(v: &mut Vec<u8>, n: u32)
    ensures
        final(v)@ == old(v)@ + dec_digit_bytes(n as nat),
    decreases n,
{
    if n < 10 {
        v.push(48 + n as u8);
        proof {
            assert(v@ =~= old(v)@ + dec_digit_bytes(n as nat));
        }
    } else {
        push_dec(v, n / 10);
        v.push(48 + (n % 10) as u8);
        proof {
            assert(v@ =~= old(v)@ + dec_digit_bytes(n as nat));
        }
    }
}

/// The decimal spelling of a port number, as a string.
pub fn port_string(n: i16) -> (r: String)
    ensures
        r@ == dec_chars(n as int),
{
    let mut v: Vec<u8> = Vec::new();
    let wide: i32 = n as i32;
    if wide < 0 {
        v.push(45);
        push_dec(&mut v, (-wide) as u32);
    } else {
        push_dec(&mut v, wide as u32);
    }
    proof {
        lemma_dec_digit_bytes_ascii(
            if (n as int) < 0 {
                (-(n as int)) as nat
            } else {
                n as nat
            },
        );
        assert(v@ =~= dec_bytes(n as int));
        lemma_ascii_utf8(v@);
    }
    match bytes_to_string(v) {
        Ok(s) => s,
        Err(_) => {
            proof {
                assert(false);
            }
            String::new()
        },
    }
}

/// The characters of the ssh jump argument: `-J user@host:port`.
pub open spec fn jump_arg_chars(user: Seq<char>, host: Seq<char>, port: int) -> Seq<char> {
    "-J "@ + user + "@"@ + host + ":"@ + dec_chars(port)
}

/// The characters of the ssh destination argument: `user@host`.
pub open spec fn host_arg_chars(user: Seq<char>, host: Seq<char>) -> Seq<char> {
    user + "@"@ + host
}

/// The characters of the ssh port-forward argument: `local:host:port`.
pub open spec fn forward_arg_chars(local: int, host: Seq<char>, port: int) -> Seq<char> {
    dec_chars(local) + ":"@ + host + ":"@ + dec_chars(port)
}

impl SshConfig {
    /// The argument list handed to the ssh client for this configuration:
    /// the jump directive, the destination, the target port, and, when a
    /// local port is to be forwarded, the forwarding directive.
    pub fn tunnel_command_args(&self) -> (r: Vec<String>)
        ensures
            ({
                let ju = self.jump_host_user@;
                let jh = self.jump_host@;
                let tu = self.target_host_user@;
                let th = self.target_host@;
                &&& r@.len() == (if self.port_forward is Some {
                    6int
                } else {
                    4int
                })
                &&& r@[0]@ == jump_arg_chars(ju, jh, self.jump_port as int)
                &&& r@[1]@ == host_arg_chars(tu, th)
                &&& r@[2]@ == "-p"@
                &&& r@[3]@ == dec_chars(self.target_port as int)
                &&& (self.port_forward matches Some(lp) ==> r@[4]@ == "-L"@ && r@[5]@
                    == forward_arg_chars(lp as int, th, self.target_port as int))
            }),
    {
        let mut args: Vec<String> = Vec::new();
        let mut jump = String::from_str("-J ");
        jump.append(self.jump_host_user.as_str());
        jump.append("@");
        jump.append(self.jump_host.as_str());
        jump.append(":");
        let jump_port_s = port_string(self.jump_port);
        jump.append(jump_port_s.as_str());
        proof {
            assert(jump@ =~= jump_arg_chars(
                self.jump_host_user@,
                self.jump_host@,
                self.jump_port as int,
            ));
        }
        args.push(jump);
        let mut dest = String::new();
        dest.append(self.target_host_user.as_str());
        dest.append("@");
        dest.append(self.target_host.as_str());
        proof {
            assert(dest@ =~= host_arg_chars(self.target_host_user@, self.target_host@));
        }
        args.push(dest);
        args.push(String::from_str("-p"));
        args.push(port_string(self.target_port));
        match self.port_forward {
            Some(local) => {
                args.push(String::from_str("-L"));
                let mut fwd = port_string(local);
                fwd.append(":");
                fwd.append(self.target_host.as_str());
                fwd.append(":");
                let target_port_s = port_string(self.target_port);
                fwd.append(target_port_s.as_str());
                proof {
                    assert(fwd@ =~= forward_arg_chars(
                        local as int,
                        self.target_host@,
                        self.target_port as int,
                    ));
                }
                args.push(fwd);
            },
            None => {},
        }
        args
    }
}

/// The profile name a file name stands for: the part before a final `.toml`
/// extension, for file names that have one besides a non-empty stem.
pub open spec fn toml_stem_of(name: Seq<char>) -> Option<Seq<char>> {
    if name.len() > 5 && name[name.len() - 5] == '.' && name[name.len() - 4] == 't' && name[name.len()
        - 3] == 'o' && name[name.len() - 2] == 'm' && name[name.len() - 1] == 'l' {
        Some(name.take(name.len() - 5))
    } else {
        None
    }
}

/// The profile names among a list of file names, in order.
pub open spec fn toml_stems_of(names: Seq<Seq<char>>) -> Seq<Seq<char>>
    decreases names.len(),
{
    if names.len() == 0 {
        Seq::empty()
    } else {
        (match toml_stem_of(names[0]) {
            Some(s) => seq![s],
            None => Seq::empty(),
        }) + toml_stems_of(names.drop_first())
    }
}

/// Extracts the profile name from one file name, when it has the `.toml`
/// extension.
pub fn toml_stem(name: &str) -> (r: Option<String>)
    ensures
        (match r {
            Some(s) => toml_stem_of(name@) == Some(s@),
            None => toml_stem_of(name@) is None,
        }),
{
    let n = name.unicode_len();
    if n <= 5 {
        return None;
    }
    if name.get_char(n - 5) == '.' && name.get_char(n - 4) == 't' && name.get_char(n - 3) == 'o'
        && name.get_char(n - 2) == 'm' && name.get_char(n - 1) == 'l' {
        let stem = name.substring_char(0, n - 5);
        proof {
            assert(stem@ =~= name@.take(name@.len() - 5));
        }
        Some(stem.to_owned())
    } else {
        None
    }
}

/// One step of `toml_stems_of` over a growing prefix.
proof fn lemma_stems_take_step(names: Seq<Seq<char>>, i: int)
    requires
        0 <= i < names.len(),
    ensures
        toml_stems_of(names.take(i + 1)) == toml_stems_of(names.take(i)) + (match toml_stem_of(
            names[i],
        ) {
            Some(s) => seq![s],
            None => Seq::<Seq<char>>::empty(),
        }),
    decreases i,
{
    if i == 0 {
        assert(names.take(1).drop_first() =~= Seq::<Seq<char>>::empty());
        assert(names.take(0) =~= Seq::<Seq<char>>::empty());
        assert(toml_stems_of(names.take(1)) =~= toml_stems_of(names.take(0)) + (match toml_stem_of(
            names[0],
        ) {
            Some(s) => seq![s],
            None => Seq::<Seq<char>>::empty(),
        }));
    } else {
        lemma_stems_take_step(names.drop_first(), i - 1);
        assert(names.take(i + 1).drop_first() =~= names.drop_first().take(i));
        assert(names.take(i).drop_first() =~= names.drop_first().take(i - 1));
        assert(names.take(i + 1)[0] == names[0] && names.take(i)[0] == names[0]);
        assert(names.drop_first()[i - 1] == names[i]);
        assert(toml_stems_of(names.take(i + 1)) =~= toml_stems_of(names.take(i)) + (
        match toml_stem_of(names[i]) {
            Some(s) => seq![s],
            None => Seq::<Seq<char>>::empty(),
        }));
    }
}

/// Filters a directory listing down to the profile names it holds: the
/// stems of the file names with the `.toml` extension, in order.
pub fn profile_names_from_files(files: &Vec<String>) -> (r: Vec<String>)
    ensures
        r.deep_view() == toml_stems_of(files.deep_view()),
{
    let mut r: Vec<String> = Vec::new();
    let n = files.len();
    let mut i: usize = 0;
    while i < n
        invariant
            0 <= i <= n == files@.len(),
            r.deep_view() == toml_stems_of(files.deep_view().take(i as int)),
        decreases n - i,
    {
        match toml_stem(&files[i]) {
            Some(s) => {
                r.push(s);
            },
            None => {},
        }
        proof {
            lemma_stems_take_step(files.deep_view(), i as int);
            assert(files.deep_view()[i as int] == files@[i as int]@);
            assert(r.deep_view() =~= toml_stems_of(files.deep_view().take(i as int + 1)));
        }
        i = i + 1;
    }
    proof {
        assert(files.deep_view().take(n as int) =~= files.deep_view());
    }
    r
}

} // verus!
