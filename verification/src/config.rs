//! The server's configuration and its checks.

use vstd::prelude::*;

use crate::errors::AppError;
use crate::numbers::is_hex_digit;
use crate::text::{
    chars_of, eq_ignore_ascii_case, equals_ignore_ascii_case, field_spans, fields,
    spans_text, Separator,
};

verus! {

/// How magic packets are addressed.
#[derive(Debug)]
pub struct WolConfig {
    pub broadcast_address: String,
    pub multicast_enabled: bool,
}

/// A machine that can be woken and shut down.
#[derive(Debug)]
pub struct Machine {
    pub name: String,
    pub mac: String,
    pub ip: String,
    pub agent_port: Option<u16>,
    pub agent_token: String,
}

/// The whole configuration of the server.
#[derive(Debug)]
pub struct Config {
    pub listen: Option<String>,
    pub api_token: String,
    pub wol: WolConfig,
    pub machines: Vec<Machine>,
}

/// What parsing `wol.broadcast_address` as a socket address gave.
#[derive(Debug, PartialEq, Eq)]
pub enum SocketAddress {
    /// Not a socket address; the parser's message.
    Unparsable(String),
    /// An IPv4 address, by its four octets.
    V4(u8, u8, u8, u8),
    /// An IPv6 address.
    V6,
}

pub open spec fn default_broadcast_text() -> Seq<char> {
    "255.255.255.255:9"@
}

pub open spec fn default_listen_text() -> Seq<char> {
    "127.0.0.1:9876"@
}

/// The port an agent listens on unless the configuration says otherwise.
pub open spec fn default_port() -> u16 {
    9877
}

/// The broadcast address used when the configuration names none.
pub fn default_broadcast_address() -> (s: String)
    ensures
        s@ == default_broadcast_text(),
{
    String::from_str("255.255.255.255:9")
}

/// The agent port a machine gets when its entry names none.
pub fn default_agent_port() -> (p: Option<u16>)
    ensures
        p == Some(default_port()),
{
    Some(9877)
}

impl Default for WolConfig {
    fn default() -> (w: Self)
        ensures
            w.broadcast_address@ == default_broadcast_text(),
            !w.multicast_enabled,
    {
        WolConfig { broadcast_address: default_broadcast_address(), multicast_enabled: false }
    }
}

/// Whether `m` answers to `name`, ASCII case ignored.
pub open spec fn answers_to(m: Machine, name: Seq<char>) -> bool {
    eq_ignore_ascii_case(m.name@, name)
}

/// Two characters that are the same up to the case of an ASCII letter.
pub open spec fn same_up_to_ascii_case(a: char, b: char) -> bool {
    ||| a == b
    ||| ('A' <= a && a <= 'Z' && b as int == a as int + 32)
    ||| ('a' <= a && a <= 'z' && b as int == a as int - 32)
}

proof fn lemma_fold_same(a: char, b: char)
    ensures
        (crate::text::ascii_fold(a) == crate::text::ascii_fold(b)) == same_up_to_ascii_case(a, b),
{
}

/// A machine answers to a name exactly when the name has as many characters
/// as the machine's and each is the machine's, or the same ASCII letter in the
/// other case.
pub proof fn lemma_answers_to_exactly(m: Machine, name: Seq<char>)
    ensures
        answers_to(m, name) <==> (m.name@.len() == name.len() && forall|i: int|
            0 <= i < name.len() ==> #[trigger] same_up_to_ascii_case(m.name@[i], name[i])),
{
    let n = m.name@;
    if answers_to(m, name) {
        assert forall|i: int| 0 <= i < name.len() implies #[trigger] same_up_to_ascii_case(n[i], name[i]) by {
            assert(crate::text::ascii_fold(n[i]) == crate::text::ascii_fold(name[i]));
            lemma_fold_same(n[i], name[i]);
        }
    }
    if n.len() == name.len() && forall|i: int|
        0 <= i < name.len() ==> #[trigger] same_up_to_ascii_case(n[i], name[i]) {
        assert forall|i: int| 0 <= i < n.len() implies #[trigger] crate::text::ascii_fold(n[i])
            == #[trigger] crate::text::ascii_fold(name[i]) by {
            assert(same_up_to_ascii_case(n[i], name[i]));
            lemma_fold_same(n[i], name[i]);
        }
    }
}

/// Names that differ only in the case of ASCII letters find the same machines.
pub proof fn lemma_lookup_ignores_case(m: Machine, a: Seq<char>, b: Seq<char>)
    requires
        eq_ignore_ascii_case(a, b),
    ensures
        answers_to(m, a) == answers_to(m, b),
{
    if answers_to(m, a) {
        assert forall|i: int| 0 <= i < m.name@.len() implies #[trigger] crate::text::ascii_fold(
            m.name@[i],
        ) == #[trigger] crate::text::ascii_fold(b[i]) by {
            assert(crate::text::ascii_fold(a[i]) == crate::text::ascii_fold(b[i]));
        }
    }
    if answers_to(m, b) {
        assert forall|i: int| 0 <= i < m.name@.len() implies #[trigger] crate::text::ascii_fold(
            m.name@[i],
        ) == #[trigger] crate::text::ascii_fold(a[i]) by {
            assert(crate::text::ascii_fold(a[i]) == crate::text::ascii_fold(b[i]));
        }
    }
}

/// Two hexadecimal digits: one group of a MAC address.
pub open spec fn is_mac_group(g: Seq<char>) -> bool {
    g.len() == 2 && is_hex_digit(g[0]) && is_hex_digit(g[1])
}

/// A MAC address: six groups of two hexadecimal digits, each group cut from
/// the next by `:` or `-`.
pub open spec fn is_mac_text(mac: Seq<char>) -> bool {
    let g = fields(mac, Separator::MacDelimiter);
    g.len() == 6 && forall|i: int| 0 <= i < 6 ==> #[trigger] is_mac_group(g[i])
}

/// `Ipv4Addr::is_multicast`: within 224.0.0.0/4.
pub open spec fn is_multicast_octet(first: u8) -> bool {
    224 <= first && first <= 239
}

/// Why `wol` cannot be used, given what parsing its address gave; `None` when it can.
pub open spec fn wol_problem(wol: WolConfig, parsed: SocketAddress) -> Option<Seq<char>> {
    match parsed {
        SocketAddress::Unparsable(e) => Some(e@),
        SocketAddress::V6 => Some("IPv6 not supported"@),
        SocketAddress::V4(a, _, _, d) => if wol.multicast_enabled {
            if is_multicast_octet(a) {
                None
            } else {
                Some("expected multicast address (224.0.0.0/4)"@)
            }
        } else {
            if d == 255 {
                None
            } else {
                Some("expected broadcast address (last octet must be 255)"@)
            }
        },
    }
}

/// The addresses magic packets can go to: IPv4 only; with multicast on, one
/// in 224.0.0.0/4, otherwise one whose last octet is 255.
pub open spec fn usable_wol_address(wol: WolConfig, parsed: SocketAddress) -> bool {
    match parsed {
        SocketAddress::V4(a, _, _, d) => if wol.multicast_enabled {
            224 <= a && a <= 239
        } else {
            d == 255
        },
        _ => false,
    }
}

/// The WoL settings are refused exactly when the address is unusable, with
/// the parser's message for an unparsable address and "IPv6 not supported"
/// for any IPv6 one, whatever the multicast setting.
pub proof fn lemma_wol_problem(wol: WolConfig, parsed: SocketAddress)
    ensures
        wol_problem(wol, parsed) is None <==> usable_wol_address(wol, parsed),
        parsed is V6 ==> wol_problem(wol, parsed) == Some("IPv6 not supported"@),
        parsed matches SocketAddress::Unparsable(e) ==> wol_problem(wol, parsed) == Some(e@),
{
}

pub open spec fn wol_message(wol: WolConfig, why: Seq<char>) -> Seq<char> {
    "wol.broadcast_address '"@ + wol.broadcast_address@ + "': "@ + why
}

pub open spec fn mac_message(mac: Seq<char>) -> Seq<char> {
    "invalid MAC address: "@ + mac
}

pub open spec fn machine_message(m: Machine) -> Seq<char> {
    "machine '"@ + m.name@ + "': "@ + mac_message(m.mac@)
}

impl Config {
    /// The entry of the first machine that answers to `name`, ASCII case ignored.
    pub fn find_machine(&self, name: &str) -> (r: Option<&Machine>)
        ensures
            match r {
                Some(m) => exists|i: int|
                    0 <= i < self.machines@.len() && *m == self.machines@[i] && answers_to(
                        self.machines@[i],
                        name@,
                    ) && forall|j: int| 0 <= j < i ==> !answers_to(self.machines@[j], name@),
                None => forall|i: int|
                    0 <= i < self.machines@.len() ==> !answers_to(self.machines@[i], name@),
            },
            r matches Some(m) ==> m.name@.len() == name@.len() && forall|i: int|
                0 <= i < name@.len() ==> #[trigger] same_up_to_ascii_case(m.name@[i], name@[i]),
    {
        let mut i: usize = 0;
        while i < self.machines.len()
            invariant
                i <= self.machines@.len(),
                forall|j: int| 0 <= j < i ==> !answers_to(self.machines@[j], name@),
            decreases self.machines@.len() - i,
        {
            if equals_ignore_ascii_case(self.machines[i].name.as_str(), name) {
                proof {
                    lemma_answers_to_exactly(self.machines@[i as int], name@);
                }
                return Some(&self.machines[i]);
            }
            i += 1;
        }
        None
    }

    /// The address the server listens on: the configured one, or 127.0.0.1:9876.
    pub fn listen_address(&self) -> (s: String)
        ensures
            s@ == match self.listen {
                Some(l) => l@,
                None => default_listen_text(),
            },
    {
        match &self.listen {
            Some(l) => l.clone(),
            None => String::from_str("127.0.0.1:9876"),
        }
    }

    /// The names of the machines, in the order of the configuration.
    pub fn machine_names(&self) -> (names: Vec<String>)
        ensures
            names@.len() == self.machines@.len(),
            forall|i: int| 0 <= i < names@.len() ==> #[trigger] names@[i]@ == self.machines@[i].name@,
    {
        let mut names: Vec<String> = Vec::new();
        let mut i: usize = 0;
        while i < self.machines.len()
            invariant
                i <= self.machines@.len(),
                names@.len() == i,
                forall|j: int| 0 <= j < i ==> #[trigger] names@[j]@ == self.machines@[j].name@,
            decreases self.machines@.len() - i,
        {
            names.push(self.machines[i].name.clone());
            i += 1;
        }
        names
    }
}

/// Checks that `mac` is six pairs of hexadecimal digits cut by `:` or `-`.
pub fn validate_mac(mac: &str) -> (r: Result<(), String>)
    ensures
        r is Ok <==> is_mac_text(mac@),
        r matches Err(e) ==> e@ == mac_message(mac@),
{
    let v = chars_of(mac);
    let spans = field_spans(&v, Separator::MacDelimiter);
    let ghost g = fields(mac@, Separator::MacDelimiter);
    assert(spans@.len() == g.len());
    if spans.len() != 6 {
        return Err(String::from_str("invalid MAC address: ").concat(mac));
    }
    let mut i: usize = 0;
    while i < 6
        invariant
            v@ == mac@,
            spans@.len() == 6,
            g == fields(mac@, Separator::MacDelimiter),
            g.len() == 6,
            crate::text::spans_within(spans@, v@.len()),
            spans_text(v@, spans@) == g,
            i <= 6,
            forall|j: int| 0 <= j < i ==> #[trigger] is_mac_group(g[j]),
        decreases 6 - i,
    {
        let (a, b) = spans[i];
        assert(g[i as int] == v@.subrange(a as int, b as int));
        if b - a != 2 || !is_hex_char(v[a]) || !is_hex_char(v[a + 1]) {
            assert(!is_mac_group(g[i as int]));
            return Err(String::from_str("invalid MAC address: ").concat(mac));
        }
        i += 1;
    }
    Ok(())
}

fn is_hex_char(c: char) -> (b: bool)
    ensures
        b == is_hex_digit(c),
{
    crate::numbers::hex_digit(c).is_some()
}

/// Checks the WoL settings, given what parsing `wol.broadcast_address` gave.
pub fn validate_wol(wol: &WolConfig, parsed: &SocketAddress) -> (r: Result<(), AppError>)
    ensures
        match wol_problem(*wol, *parsed) {
            None => r is Ok,
            Some(why) => r matches Err(AppError::Config(m)) && m@ == wol_message(*wol, why),
        },
        r is Ok <==> usable_wol_address(*wol, *parsed),
        parsed is V6 ==> (r matches Err(AppError::Config(m)) && m@ == wol_message(
            *wol,
            "IPv6 not supported"@,
        )),
        parsed matches SocketAddress::Unparsable(e) ==> (r matches Err(AppError::Config(m)) && m@
            == wol_message(*wol, e@)),
{
    proof {
        lemma_wol_problem(*wol, *parsed);
    }
    let prefix = String::from_str("wol.broadcast_address '").concat(
        wol.broadcast_address.as_str(),
    ).concat("': ");
    match parsed {
        SocketAddress::Unparsable(e) => Err(AppError::Config(prefix.concat(e.as_str()))),
        SocketAddress::V6 => Err(AppError::Config(prefix.concat("IPv6 not supported"))),
        SocketAddress::V4(a, _, _, d) => {
            if wol.multicast_enabled {
                if 224 <= *a && *a <= 239 {
                    Ok(())
                } else {
                    Err(AppError::Config(prefix.concat("expected multicast address (224.0.0.0/4)")))
                }
            } else {
                if *d == 255 {
                    Ok(())
                } else {
                    Err(
                        AppError::Config(
                            prefix.concat("expected broadcast address (last octet must be 255)"),
                        ),
                    )
                }
            }
        },
    }
}

/// Why `config` cannot be used; `None` when it can. The WoL settings are
/// checked first, then the machines' MAC addresses in order.
pub open spec fn config_problem(config: Config, parsed: SocketAddress) -> Option<Seq<char>> {
    match wol_problem(config.wol, parsed) {
        Some(why) => Some(wol_message(config.wol, why)),
        None => if exists|i: int|
            0 <= i < config.machines@.len() && !is_mac_text(#[trigger] config.machines@[i].mac@) {
            let i = choose|i: int|
                0 <= i < config.machines@.len() && !is_mac_text(config.machines@[i].mac@) && forall|
                    j: int,
                | 0 <= j < i ==> is_mac_text(#[trigger] config.machines@[j].mac@);
            Some(machine_message(config.machines@[i]))
        } else {
            None
        },
    }
}

/// A configuration is refused exactly when its WoL settings are, or some
/// machine's MAC address is not six pairs of hexadecimal digits; the first
/// such machine is the one named.
pub proof fn lemma_config_problem(config: Config, parsed: SocketAddress)
    ensures
        config_problem(config, parsed) is None <==> usable_wol_address(config.wol, parsed)
            && forall|i: int|
            0 <= i < config.machines@.len() ==> is_mac_text(#[trigger] config.machines@[i].mac@),
        usable_wol_address(config.wol, parsed) && config_problem(config, parsed) is Some
            ==> exists|k: int|
            0 <= k < config.machines@.len() && !is_mac_text(config.machines@[k].mac@) && (forall|
                j: int,
            | 0 <= j < k ==> is_mac_text(#[trigger] config.machines@[j].mac@))
                && config_problem(config, parsed) == Some(machine_message(config.machines@[k])),
{
    lemma_wol_problem(config.wol, parsed);
    let ms = config.machines@;
    if usable_wol_address(config.wol, parsed) && exists|i: int|
        0 <= i < ms.len() && !is_mac_text(#[trigger] ms[i].mac@) {
        let w = choose|i: int| 0 <= i < ms.len() && !is_mac_text(#[trigger] ms[i].mac@);
        lemma_first_bad_exists(ms, w);
    }
}

/// Where some machine's MAC address is bad, there is a first one.
proof fn lemma_first_bad_exists(ms: Seq<Machine>, w: int)
    requires
        0 <= w < ms.len(),
        !is_mac_text(ms[w].mac@),
    ensures
        exists|k: int|
            0 <= k < ms.len() && !is_mac_text(ms[k].mac@) && forall|j: int|
                0 <= j < k ==> is_mac_text(#[trigger] ms[j].mac@),
    decreases w,
{
    if exists|j: int| 0 <= j < w && !is_mac_text(#[trigger] ms[j].mac@) {
        let j = choose|j: int| 0 <= j < w && !is_mac_text(#[trigger] ms[j].mac@);
        lemma_first_bad_exists(ms, j);
    } else {
        assert(forall|j: int| 0 <= j < w ==> is_mac_text(#[trigger] ms[j].mac@));
    }
}

/// Checks a loaded configuration: its WoL settings, given what parsing
/// `wol.broadcast_address` gave, then the MAC address of every machine.
pub fn validate_config(config: &Config, parsed: &SocketAddress) -> (r: Result<(), AppError>)
    ensures
        match config_problem(*config, *parsed) {
            None => r is Ok,
            Some(m) => r matches Err(AppError::Config(e)) && e@ == m,
        },
        r is Ok <==> usable_wol_address(config.wol, *parsed) && forall|i: int|
            0 <= i < config.machines@.len() ==> is_mac_text(#[trigger] config.machines@[i].mac@),
        usable_wol_address(config.wol, *parsed) && r is Err ==> exists|k: int|
            0 <= k < config.machines@.len() && !is_mac_text(config.machines@[k].mac@) && (forall|
                j: int,
            | 0 <= j < k ==> is_mac_text(#[trigger] config.machines@[j].mac@)) && (r matches Err(
                AppError::Config(e),
            ) && e@ == machine_message(config.machines@[k])),
{
    proof {
        lemma_wol_problem(config.wol, *parsed);
        lemma_config_problem(*config, *parsed);
    }
    validate_wol(&config.wol, parsed)?;
    let mut i: usize = 0;
    while i < config.machines.len()
        invariant
            i <= config.machines@.len(),
            wol_problem(config.wol, *parsed) is None,
            forall|j: int| 0 <= j < i ==> is_mac_text(#[trigger] config.machines@[j].mac@),
        decreases config.machines@.len() - i,
    {
        let m = &config.machines[i];
        match validate_mac(m.mac.as_str()) {
            Ok(()) => {},
            Err(e) => {
                let msg = String::from_str("machine '").concat(m.name.as_str()).concat("': ").concat(
                    e.as_str(),
                );
                proof {
                    let k = choose|k: int|
                        0 <= k < config.machines@.len() && !is_mac_text(config.machines@[k].mac@)
                            && forall|j: int|
                            0 <= j < k ==> is_mac_text(#[trigger] config.machines@[j].mac@);
                    assert(k == i as int) by {
                        if k < i {
                        } else if k > i {
                            assert(is_mac_text(config.machines@[i as int].mac@));
                        }
                    }
                }
                return Err(AppError::Config(msg));
            },
        }
        i += 1;
    }
    Ok(())
}

} // verus!
