//! Desktop-side helpers: choosing the LAN address to show, the link built on
//! it, and how a folder path is displayed.
use vstd::prelude::*;
use crate::paths::{law_name_below_parts, name_after, name_below, opt_str, stripped_prefix, strip_path_prefix};
use crate::text::{
    decimal, decimal_string, last_index_of, lemma_last_index_of_bounds, rfind_char, seq_starts_with,
    starts_with, substring,
};

verus! {

/// An IPv4 address, octet by octet.
#[derive(Debug, Clone, Copy, PartialEq, Eq, Structural)]
pub struct Ipv4 {
    pub a: u8,
    pub b: u8,
    pub c: u8,
    pub d: u8,
}

/// The private ranges of RFC 1918: 10/8, 172.16/12 and 192.168/16.
pub open spec fn is_private(ip: Ipv4) -> bool {
    ip.a == 10 || (ip.a == 172 && 16 <= ip.b <= 31) || (ip.a == 192 && ip.b == 168)
}

/// How home-LAN-like an address looks: 192.168/16 first, then 172.16/12, then the rest.
pub open spec fn rank_of(ip: Ipv4) -> u8 {
    if ip.a == 192 && ip.b == 168 {
        0
    } else if ip.a == 172 && 16 <= ip.b <= 31 {
        1
    } else {
        2
    }
}

impl Ipv4 {
    pub fn new(a: u8, b: u8, c: u8, d: u8) -> (r: Ipv4)
        ensures
            r == (Ipv4 { a, b, c, d }),
    {
        Ipv4 { a, b, c, d }
    }

    /// Whether the address lies in a private range.
    pub fn is_private(&self) -> (r: bool)
        ensures
            r == is_private(*self),
    {
        self.a == 10 || (self.a == 172 && 16 <= self.b && self.b <= 31) || (self.a == 192
            && self.b == 168)
    }
}

/// How home-LAN-like `ip` looks (lower is better).
pub fn rank(ip: &Ipv4) -> (r: u8)
    ensures
        r == rank_of(*ip),
{
    if ip.a == 192 && ip.b == 168 {
        0
    } else if ip.a == 172 && 16 <= ip.b && ip.b <= 31 {
        1
    } else {
        2
    }
}

/// Interface names of tunnels and VPNs start with one of these.
pub open spec fn is_vpn_name(name: Seq<char>) -> bool {
    ||| seq_starts_with(name, "tun"@)
    ||| seq_starts_with(name, "tap"@)
    ||| seq_starts_with(name, "wg"@)
    ||| seq_starts_with(name, "utun"@)
    ||| seq_starts_with(name, "ppp"@)
    ||| seq_starts_with(name, "ipsec"@)
}

/// Whether `name` looks like a tunnel or VPN interface.
pub fn is_vpn_iface(name: &str) -> (r: bool)
    ensures
        r == is_vpn_name(name@),
{
    starts_with(name, "tun") || starts_with(name, "tap") || starts_with(name, "wg") || starts_with(
        name,
        "utun",
    ) || starts_with(name, "ppp") || starts_with(name, "ipsec")
}

/// An interface name is taken for a tunnel or VPN exactly when it starts with
/// one of `tun`, `tap`, `wg`, `utun`, `ppp` or `ipsec`; any other name, such as
/// `en0`, `eth0` or `wlan0`, is not.
pub proof fn law_vpn_names_are_tunnel_prefixes(name: Seq<char>)
    ensures
        is_vpn_name(name) <==> {
            ||| name.len() >= 3 && name.subrange(0, 3) == seq!['t', 'u', 'n']
            ||| name.len() >= 3 && name.subrange(0, 3) == seq!['t', 'a', 'p']
            ||| name.len() >= 2 && name.subrange(0, 2) == seq!['w', 'g']
            ||| name.len() >= 4 && name.subrange(0, 4) == seq!['u', 't', 'u', 'n']
            ||| name.len() >= 3 && name.subrange(0, 3) == seq!['p', 'p', 'p']
            ||| name.len() >= 5 && name.subrange(0, 5) == seq!['i', 'p', 's', 'e', 'c']
        },
{
    reveal_strlit("tun");
    reveal_strlit("tap");
    reveal_strlit("wg");
    reveal_strlit("utun");
    reveal_strlit("ppp");
    reveal_strlit("ipsec");
    assert("tun"@ =~= seq!['t', 'u', 'n']);
    assert("tap"@ =~= seq!['t', 'a', 'p']);
    assert("wg"@ =~= seq!['w', 'g']);
    assert("utun"@ =~= seq!['u', 't', 'u', 'n']);
    assert("ppp"@ =~= seq!['p', 'p', 'p']);
    assert("ipsec"@ =~= seq!['i', 'p', 's', 'e', 'c']);
}

/// An interface that is not loopback, has a private IPv4 address and a name
/// that starts with none of the tunnel prefixes is a candidate, so some
/// address is then chosen.
pub proof fn law_plain_lan_interface_is_chosen_from(ifaces: Seq<NetInterface>, i: int)
    requires
        0 <= i < ifaces.len(),
        !ifaces[i].is_loopback,
        ifaces[i].ipv4 matches Some(ip) && is_private(ip),
        !(ifaces[i].name@.len() >= 3 && ifaces[i].name@.subrange(0, 3) == seq!['t', 'u', 'n']),
        !(ifaces[i].name@.len() >= 3 && ifaces[i].name@.subrange(0, 3) == seq!['t', 'a', 'p']),
        !(ifaces[i].name@.len() >= 2 && ifaces[i].name@.subrange(0, 2) == seq!['w', 'g']),
        !(ifaces[i].name@.len() >= 4 && ifaces[i].name@.subrange(0, 4) == seq!['u', 't', 'u', 'n']),
        !(ifaces[i].name@.len() >= 3 && ifaces[i].name@.subrange(0, 3) == seq!['p', 'p', 'p']),
        !(ifaces[i].name@.len() >= 5 && ifaces[i].name@.subrange(0, 5) == seq![
            'i',
            'p',
            's',
            'e',
            'c',
        ]),
    ensures
        is_candidate(ifaces[i]),
        candidates(ifaces).len() > 0,
    decreases ifaces.len(),
{
    law_vpn_names_are_tunnel_prefixes(ifaces[i].name@);
    if i < ifaces.len() - 1 {
        let rest = ifaces.drop_last();
        assert(rest[i] == ifaces[i]);
        law_plain_lan_interface_is_chosen_from(rest, i);
        if !is_candidate(ifaces.last()) {
            assert(candidates(ifaces) == candidates(rest));
        }
    } else {
        assert(ifaces.last() == ifaces[i]);
    }
}

/// A network interface of this machine.
pub struct NetInterface {
    pub name: String,
    pub is_loopback: bool,
    /// The interface's address when it is an IPv4 one.
    pub ipv4: Option<Ipv4>,
}

/// An interface whose address may be shown to other devices of the LAN.
pub open spec fn is_candidate(iface: NetInterface) -> bool {
    &&& !iface.is_loopback
    &&& !is_vpn_name(iface.name@)
    &&& iface.ipv4 matches Some(ip) && is_private(ip)
}

/// The addresses of the candidate interfaces, in order.
pub open spec fn candidates(ifaces: Seq<NetInterface>) -> Seq<Ipv4>
    decreases ifaces.len(),
{
    if ifaces.len() == 0 {
        Seq::empty()
    } else if is_candidate(ifaces.last()) {
        candidates(ifaces.drop_last()).push(ifaces.last().ipv4->0)
    } else {
        candidates(ifaces.drop_last())
    }
}

/// `ip` is the first of `c` among those of the best rank.
pub open spec fn first_best(c: Seq<Ipv4>, ip: Ipv4) -> bool {
    exists|k: int|
        0 <= k < c.len() && c[k] == ip && (forall|j: int| 0 <= j < c.len() ==> rank_of(#[trigger] c[j]) >= rank_of(ip))
            && (forall|j: int| 0 <= j < k ==> rank_of(#[trigger] c[j]) > rank_of(ip))
}

proof fn lemma_candidates_qualify(ifaces: Seq<NetInterface>)
    ensures
        forall|k: int|
            0 <= k < candidates(ifaces).len() ==> exists|i: int|
                0 <= i < ifaces.len() && is_candidate(#[trigger] ifaces[i])
                    && ifaces[i].ipv4 == Some(#[trigger] candidates(ifaces)[k]),
    decreases ifaces.len(),
{
    if ifaces.len() > 0 {
        let rest = ifaces.drop_last();
        lemma_candidates_qualify(rest);
        let c = candidates(ifaces);
        assert forall|k: int| 0 <= k < c.len() implies exists|i: int|
            0 <= i < ifaces.len() && is_candidate(#[trigger] ifaces[i]) && ifaces[i].ipv4 == Some(
                #[trigger] c[k],
            ) by {
            if k < candidates(rest).len() {
                let i = choose|i: int|
                    0 <= i < rest.len() && is_candidate(#[trigger] rest[i]) && rest[i].ipv4 == Some(
                        #[trigger] candidates(rest)[k],
                    );
                assert(ifaces[i] == rest[i]);
            } else {
                assert(ifaces[ifaces.len() - 1] == ifaces.last());
            }
        }
    }
}

/// The address chosen is private and belongs to an interface that is neither
/// loopback nor VPN.
pub proof fn law_selected_address_qualifies(ifaces: Seq<NetInterface>, ip: Ipv4)
    requires
        first_best(candidates(ifaces), ip),
    ensures
        is_private(ip),
        exists|i: int|
            0 <= i < ifaces.len() && !(#[trigger] ifaces[i]).is_loopback && !is_vpn_name(
                ifaces[i].name@,
            ) && ifaces[i].ipv4 == Some(ip),
{
    lemma_candidates_qualify(ifaces);
    let c = candidates(ifaces);
    let k = choose|k: int|
        0 <= k < c.len() && c[k] == ip && (forall|j: int|
            0 <= j < c.len() ==> rank_of(#[trigger] c[j]) >= rank_of(ip)) && (forall|j: int|
            0 <= j < k ==> rank_of(#[trigger] c[j]) > rank_of(ip));
    let i = choose|i: int|
        0 <= i < ifaces.len() && is_candidate(#[trigger] ifaces[i]) && ifaces[i].ipv4 == Some(
            #[trigger] c[k],
        );
}

/// Among the private IPv4 addresses of interfaces that are neither loopback
/// nor VPN, the first one of the most home-LAN-like rank.
pub fn select_local_ip(ifaces: &Vec<NetInterface>) -> (r: Option<Ipv4>)
    ensures
        r is None <==> candidates(ifaces@).len() == 0,
        r matches Some(ip) ==> first_best(candidates(ifaces@), ip),
{
    let mut best: Option<Ipv4> = None;
    let ghost mut best_k: int = 0;
    let mut i: usize = 0;
    assert(ifaces@.take(0) =~= Seq::<NetInterface>::empty());
    while i < ifaces.len()
        invariant
            i <= ifaces.len(),
            best is None <==> candidates(ifaces@.take(i as int)).len() == 0,
            best matches Some(ip) ==> {
                let c = candidates(ifaces@.take(i as int));
                &&& 0 <= best_k < c.len()
                &&& c[best_k] == ip
                &&& forall|j: int| 0 <= j < c.len() ==> rank_of(#[trigger] c[j]) >= rank_of(ip)
                &&& forall|j: int| 0 <= j < best_k ==> rank_of(#[trigger] c[j]) > rank_of(ip)
            },
        decreases ifaces.len() - i,
    {
        let iface = &ifaces[i];
        let ghost prev = candidates(ifaces@.take(i as int));
        assert(ifaces@.take(i + 1).drop_last() =~= ifaces@.take(i as int));
        assert(ifaces@.take(i + 1).last() == ifaces@[i as int]);
        if !iface.is_loopback && !is_vpn_iface(iface.name.as_str()) {
            match iface.ipv4 {
                Some(ip) => {
                    if ip.is_private() {
                        let ghost c = candidates(ifaces@.take(i + 1));
                        assert(c == prev.push(ip));
                        match best {
                            None => {
                                best = Some(ip);
                                proof {
                                    best_k = prev.len() as int;
                                }
                            },
                            Some(b) => {
                                if rank(&ip) < rank(&b) {
                                    best = Some(ip);
                                    proof {
                                        best_k = prev.len() as int;
                                    }
                                }
                            },
                        }
                        assert forall|j: int| 0 <= j < prev.len() implies #[trigger] c[j]
                            == prev[j] by {}
                    }
                },
                None => {},
            }
        }
        i = i + 1;
    }
    assert(ifaces@.take(ifaces.len() as int) =~= ifaces@);
    best
}

/// A folder path for display, split before its last component.
#[derive(Debug, Clone, PartialEq, Eq)]
pub struct FolderPath {
    pub prefix: String,
    pub name: String,
}

/// The path as text, with the home directory written as `~`.
pub open spec fn with_tilde(path: Seq<char>, home: Option<Seq<char>>) -> Seq<char> {
    match home {
        None => path,
        Some(h) => match stripped_prefix(path, h) {
            Some(rest) => if rest.len() == 0 {
                seq!['~']
            } else {
                seq!['~', '/'] + rest
            },
            None => path,
        },
    }
}

/// The home directory is written as `~` and nothing else changes: a path
/// strictly below home shows as `~/` and the whole rest of it after home (what
/// `strip_prefix` leaves), home itself as `~`, any other path as it is; and for
/// a path one name below home, putting home back in place of `~` gives the
/// path again.
pub proof fn law_tilde_replaces_only_home(path: Seq<char>, home: Seq<char>)
    ensures
        stripped_prefix(path, home) is None ==> with_tilde(path, Some(home)) == path,
        stripped_prefix(path, home) == Some(Seq::<char>::empty()) ==> with_tilde(path, Some(home))
            == seq!['~'],
        forall|rest: Seq<char>|
            #[trigger] stripped_prefix(path, home) == Some(rest) && rest.len() > 0 ==> with_tilde(
                path,
                Some(home),
            ) == seq!['~', '/'] + rest,
        name_below(path, home) && home.last() != '/' ==> home + with_tilde(path, Some(home)).subrange(
            1,
            with_tilde(path, Some(home)).len() as int,
        ) == path,
        with_tilde(path, None) == path,
{
    if name_below(path, home) && home.last() != '/' {
        law_name_below_parts(path, home);
        let n = name_after(path, home);
        let w = with_tilde(path, Some(home));
        assert(w == seq!['~', '/'] + n);
        assert(home + w.subrange(1, w.len() as int) =~= path);
    }
}

/// Everything up to and including the last `/` of `s`.
pub open spec fn prefix_part(s: Seq<char>) -> Seq<char> {
    s.subrange(0, last_index_of(s, '/') + 1)
}

/// Everything after the last `/` of `s` (all of `s` when it has none).
pub open spec fn name_part(s: Seq<char>) -> Seq<char> {
    s.subrange(last_index_of(s, '/') + 1, s.len() as int)
}

/// A displayed path is its prefix followed by its name, and the name holds no `/`.
pub proof fn law_display_split(rendered: Seq<char>)
    ensures
        prefix_part(rendered) + name_part(rendered) == rendered,
        !name_part(rendered).contains('/'),
        prefix_part(rendered).len() == 0 || prefix_part(rendered).last() == '/',
{
    lemma_last_index_of_bounds(rendered, '/');
    let k = last_index_of(rendered, '/');
    assert(prefix_part(rendered) + name_part(rendered) =~= rendered);
    assert forall|j: int| 0 <= j < name_part(rendered).len() implies name_part(rendered)[j]
        != '/' by {
        assert(name_part(rendered)[j] == rendered[k + 1 + j]);
    }
}

/// The text `path` displays as, given the rest of it below the home
/// directory (`None` when it is not below the home directory).
pub fn render_stripped(path: &str, below_home: Option<&str>) -> (r: String)
    ensures
        r@ == match below_home {
            Some(rest) => if rest@.len() == 0 {
                seq!['~']
            } else {
                seq!['~', '/'] + rest@
            },
            None => path@,
        },
{
    match below_home {
        Some(rest) => {
            proof {
                reveal_strlit("~");
                reveal_strlit("~/");
            }
            if rest.is_empty() {
                let r = String::from_str("~");
                assert(r@ =~= seq!['~']);
                r
            } else {
                let mut r = String::from_str("~/");
                r.append(rest);
                assert(r@ =~= seq!['~', '/'] + rest@);
                r
            }
        },
        None => String::from_str(path),
    }
}

/// `path` as text, with the home directory `home` (if known) written as `~`.
pub fn render_with_tilde(path: &str, home: Option<&str>) -> (r: String)
    ensures
        r@ == with_tilde(path@, opt_str(home)),
{
    match home {
        None => String::from_str(path),
        Some(h) => {
            let rest = strip_path_prefix(path, h);
            match rest {
                Some(s) => render_stripped(path, Some(s.as_str())),
                None => render_stripped(path, None),
            }
        },
    }
}

/// Splits a displayed path before its last component.
pub fn split_display(rendered: &str) -> (r: FolderPath)
    ensures
        r.prefix@ == prefix_part(rendered@),
        r.name@ == name_part(rendered@),
{
    proof {
        lemma_last_index_of_bounds(rendered@, '/');
    }
    let n = crate::text::char_len(rendered);
    match rfind_char(rendered, '/') {
        Some(idx) => FolderPath {
            prefix: substring(rendered, 0, idx + 1),
            name: substring(rendered, idx + 1, n),
        },
        None => FolderPath { prefix: String::new(), name: substring(rendered, 0, n) },
    }
}

/// How a shared folder's path is shown: with `~` for the home directory
/// `home` (if known), split before its last component.
pub fn display_path(path: &str, home: Option<&str>) -> (r: FolderPath)
    ensures
        r.prefix@ == prefix_part(with_tilde(path@, opt_str(home))),
        r.name@ == name_part(with_tilde(path@, opt_str(home))),
{
    let rendered = render_with_tilde(path, home);
    split_display(rendered.as_str())
}

/// The link to the server: `http://` and the address, then `:` and the port.
pub open spec fn url_of(ip: Ipv4, port: u16) -> Seq<char> {
    "http://"@ + decimal(ip.a as nat) + seq!['.'] + decimal(ip.b as nat) + seq!['.'] + decimal(
        ip.c as nat,
    ) + seq!['.'] + decimal(ip.d as nat) + seq![':'] + decimal(port as nat)
}

/// The link at which other devices reach the server.
pub fn server_url(ip: Ipv4, port: u16) -> (r: String)
    ensures
        r@ == url_of(ip, port),
{
    proof {
        reveal_strlit(".");
        reveal_strlit(":");
    }
    let mut r = String::from_str("http://");
    r.append(decimal_string(ip.a as u64).as_str());
    r.append(".");
    r.append(decimal_string(ip.b as u64).as_str());
    r.append(".");
    r.append(decimal_string(ip.c as u64).as_str());
    r.append(".");
    r.append(decimal_string(ip.d as u64).as_str());
    r.append(":");
    r.append(decimal_string(port as u64).as_str());
    assert(r@ =~= url_of(ip, port));
    r
}

/// The link shown while the server runs: known only when both the LAN address
/// and the port are.
pub fn link_for(ip: Option<Ipv4>, port: Option<u16>) -> (r: Option<String>)
    ensures
        match (ip, port) {
            (Some(a), Some(p)) => r matches Some(s) && s@ == url_of(a, p),
            _ => r is None,
        },
{
    match (ip, port) {
        (Some(a), Some(p)) => Some(server_url(a, p)),
        _ => None,
    }
}

/// A folder already shared, and whether it exists on disk.
pub struct KnownFolder {
    pub path: String,
    pub exists: bool,
}

/// The index of the last folder of `folders` that exists, or -1.
pub open spec fn last_existing(folders: Seq<KnownFolder>) -> int
    decreases folders.len(),
{
    if folders.len() == 0 {
        -1
    } else if folders.last().exists {
        folders.len() - 1
    } else {
        last_existing(folders.drop_last())
    }
}

/// Where the folder picker opens: the last shared folder that exists, else the
/// home directory (if known).
pub fn picker_start(folders: &Vec<KnownFolder>, home: Option<String>) -> (r: Option<String>)
    ensures
        last_existing(folders@) >= 0 ==> (r matches Some(s) && s@ == folders@[last_existing(
            folders@,
        )].path@),
        last_existing(folders@) < 0 ==> r == home,
{
    let mut i: usize = folders.len();
    assert(folders@.take(i as int) =~= folders@);
    while i > 0
        invariant
            i <= folders.len(),
            last_existing(folders@) == last_existing(folders@.take(i as int)),
        decreases i,
    {
        assert(folders@.take(i as int).drop_last() =~= folders@.take(i - 1));
        assert(folders@.take(i as int).last() == folders@[i - 1]);
        if folders[i - 1].exists {
            return Some(folders[i - 1].path.clone());
        }
        i = i - 1;
    }
    home
}

} // verus!
