//! The `ip` and `iptables` command lines that wire a sandbox into the host
//! network: the bridge, a sandbox's tap device, NAT for the guest subnet and
//! port forwards, and reading the outbound interface from the default
//! route. Running the commands is the caller's part.
use vstd::prelude::*;
use vstd::string::StringExecFns;
use crate::text::{chars_of, decimal, is_white_space, string_of, string_views, u64_to_decimal, unicode_white_space};

verus! {

/// The texts of string slices.
pub open spec fn str_views(v: Seq<&str>) -> Seq<Seq<char>> {
    v.map_values(|s: &str| s@)
}

/// The owned strings of some string slices.
pub fn to_strings(parts: &[&str]) -> (r: Vec<String>)
    ensures
        string_views(r@) == str_views(parts@),
{
    let mut out: Vec<String> = Vec::new();
    let mut i: usize = 0;
    while i < parts.len()
        invariant
            i <= parts@.len(),
            string_views(out@) == str_views(parts@).take(i as int),
        decreases parts.len() - i,
    {
        let ghost before = out@;
        out.push(String::from_str(parts[i]));
        proof {
            assert(string_views(out@) =~= string_views(before).push(parts@[i as int]@));
            assert(str_views(parts@).take(i + 1) =~= str_views(parts@).take(i as int).push(parts@[i as int]@));
        }
        i = i + 1;
    }
    proof {
        assert(str_views(parts@).take(parts@.len() as int) =~= str_views(parts@));
    }
    out
}

/// `-A` to add a rule, `-D` to delete it.
pub open spec fn rule_action(add: bool) -> Seq<char> {
    if add { "-A"@ } else { "-D"@ }
}

fn rule_action_exec(add: bool) -> (r: &'static str)
    ensures
        r@ == rule_action(add),
{
    if add { "-A" } else { "-D" }
}

/// `iptables` arguments of the DNAT rule that forwards host port
/// `host_port` to `guest_ip:guest_port`.
pub fn port_forward_args(add: bool, host_port: u16, guest_ip: &str, guest_port: u16) -> (r: Vec<String>)
    ensures
        string_views(r@) == seq!["-t"@, "nat"@, rule_action(add), "PREROUTING"@, "-p"@, "tcp"@, "--dport"@,
            decimal(host_port as nat), "-j"@, "DNAT"@, "--to-destination"@, guest_ip@ + ":"@ + decimal(guest_port as nat)],
{
    let port = u64_to_decimal(host_port as u64);
    let mut target = String::from_str(guest_ip);
    target.append(":");
    target.append(u64_to_decimal(guest_port as u64).as_str());
    let parts = [
        "-t", "nat", rule_action_exec(add), "PREROUTING", "-p", "tcp", "--dport", port.as_str(), "-j", "DNAT",
        "--to-destination", target.as_str(),
    ];
    let r = to_strings(&parts);
    proof {
        assert(str_views(parts@) =~= seq!["-t"@, "nat"@, rule_action(add), "PREROUTING"@, "-p"@, "tcp"@, "--dport"@,
            decimal(host_port as nat), "-j"@, "DNAT"@, "--to-destination"@, guest_ip@ + ":"@ + decimal(guest_port as nat)]);
    }
    r
}

/// `iptables` arguments of the MASQUERADE rule for the guest subnet on the
/// outbound interface.
pub fn nat_rule_args(add: bool, outbound_interface: &str, subnet: &str) -> (r: Vec<String>)
    ensures
        string_views(r@) == seq!["-t"@, "nat"@, rule_action(add), "POSTROUTING"@, "-s"@, subnet@, "-o"@,
            outbound_interface@, "-j"@, "MASQUERADE"@],
{
    let parts = ["-t", "nat", rule_action_exec(add), "POSTROUTING", "-s", subnet, "-o", outbound_interface, "-j", "MASQUERADE"];
    let r = to_strings(&parts);
    proof {
        assert(str_views(parts@) =~= seq!["-t"@, "nat"@, rule_action(add), "POSTROUTING"@, "-s"@, subnet@, "-o"@,
            outbound_interface@, "-j"@, "MASQUERADE"@]);
    }
    r
}

/// The `ip` commands that create a tap device, attach it to the bridge and
/// bring it up, in order.
pub fn create_tap_commands(name: &str, bridge: &str) -> (r: Vec<Vec<String>>)
    ensures
        r@.len() == 3,
        string_views(r@[0]@) == seq!["tuntap"@, "add"@, "dev"@, name@, "mode"@, "tap"@],
        string_views(r@[1]@) == seq!["link"@, "set"@, name@, "master"@, bridge@],
        string_views(r@[2]@) == seq!["link"@, "set"@, name@, "up"@],
{
    let a = ["tuntap", "add", "dev", name, "mode", "tap"];
    let b = ["link", "set", name, "master", bridge];
    let c = ["link", "set", name, "up"];
    let mut r: Vec<Vec<String>> = Vec::new();
    r.push(to_strings(&a));
    r.push(to_strings(&b));
    r.push(to_strings(&c));
    proof {
        assert(str_views(a@) =~= seq!["tuntap"@, "add"@, "dev"@, name@, "mode"@, "tap"@]);
        assert(str_views(b@) =~= seq!["link"@, "set"@, name@, "master"@, bridge@]);
        assert(str_views(c@) =~= seq!["link"@, "set"@, name@, "up"@]);
    }
    r
}

/// The `ip` arguments that delete a device.
pub fn delete_link_args(name: &str) -> (r: Vec<String>)
    ensures
        string_views(r@) == seq!["link"@, "delete"@, name@],
{
    let a = ["link", "delete", name];
    let r = to_strings(&a);
    proof {
        assert(str_views(a@) =~= seq!["link"@, "delete"@, name@]);
    }
    r
}

/// The `ip` arguments that ask whether a device exists.
pub fn show_link_args(name: &str) -> (r: Vec<String>)
    ensures
        string_views(r@) == seq!["link"@, "show"@, name@],
{
    let a = ["link", "show", name];
    let r = to_strings(&a);
    proof {
        assert(str_views(a@) =~= seq!["link"@, "show"@, name@]);
    }
    r
}

/// The `ip` commands that create a bridge and bring it up, in order.
pub fn create_bridge_commands(name: &str) -> (r: Vec<Vec<String>>)
    ensures
        r@.len() == 2,
        string_views(r@[0]@) == seq!["link"@, "add"@, "name"@, name@, "type"@, "bridge"@],
        string_views(r@[1]@) == seq!["link"@, "set"@, name@, "up"@],
{
    let a = ["link", "add", "name", name, "type", "bridge"];
    let b = ["link", "set", name, "up"];
    let mut r: Vec<Vec<String>> = Vec::new();
    r.push(to_strings(&a));
    r.push(to_strings(&b));
    proof {
        assert(str_views(a@) =~= seq!["link"@, "add"@, "name"@, name@, "type"@, "bridge"@]);
        assert(str_views(b@) =~= seq!["link"@, "set"@, name@, "up"@]);
    }
    r
}

/// The `ip` commands that bring a bridge down and delete it, in order.
pub fn delete_bridge_commands(name: &str) -> (r: Vec<Vec<String>>)
    ensures
        r@.len() == 2,
        string_views(r@[0]@) == seq!["link"@, "set"@, name@, "down"@],
        string_views(r@[1]@) == seq!["link"@, "delete"@, name@, "type"@, "bridge"@],
{
    let a = ["link", "set", name, "down"];
    let b = ["link", "delete", name, "type", "bridge"];
    let mut r: Vec<Vec<String>> = Vec::new();
    r.push(to_strings(&a));
    r.push(to_strings(&b));
    proof {
        assert(str_views(a@) =~= seq!["link"@, "set"@, name@, "down"@]);
        assert(str_views(b@) =~= seq!["link"@, "delete"@, name@, "type"@, "bridge"@]);
    }
    r
}

/// The words of a text: its maximal runs without white space
/// (`str::split_whitespace`).
pub open spec fn words(s: Seq<char>) -> Seq<Seq<char>>
    decreases s.len(),
{
    if s.len() == 0 {
        Seq::empty()
    } else {
        let rest = words(s.drop_last());
        let c = s.last();
        if unicode_white_space(c) {
            rest
        } else if s.len() >= 2 && !unicode_white_space(s[s.len() - 2]) && rest.len() > 0 {
            rest.update(rest.len() - 1, rest.last().push(c))
        } else {
            rest.push(seq![c])
        }
    }
}

/// The interface named after the first `dev` word of the default route.
pub open spec fn outbound_interface_spec(route: Seq<char>) -> Option<Seq<char>> {
    let w = words(route);
    if exists|i: int| 0 <= i < w.len() - 1 && w[i] == "dev"@ {
        let i = choose|i: int| 0 <= i < w.len() - 1 && w[i] == "dev"@ && forall|j: int| 0 <= j < i ==> w[j] != "dev"@;
        Some(w[i + 1])
    } else {
        None
    }
}

/// Splits text into its words.
pub fn split_words(text: &str) -> (r: Vec<Vec<char>>)
    ensures
        crate::text::char_vec_views(r@) == words(text@),
{
    let cs = chars_of(text);
    let mut out: Vec<Vec<char>> = Vec::new();
    let mut i: usize = 0;
    let mut prev_ws = true;
    proof {
        assert(cs@.take(0) =~= Seq::<char>::empty());
        assert(crate::text::char_vec_views(out@) =~= words(cs@.take(0)));
    }
    while i < cs.len()
        invariant
            i <= cs@.len(),
            crate::text::char_vec_views(out@) == words(cs@.take(i as int)),
            prev_ws == (i == 0 || unicode_white_space(cs@[i - 1])),
            !prev_ws ==> out@.len() > 0,
        decreases cs.len() - i,
    {
        let c = cs[i];
        let ws = is_white_space(c);
        let ghost before = crate::text::char_vec_views(out@);
        proof {
            assert(cs@.take(i + 1).drop_last() =~= cs@.take(i as int));
            assert(cs@.take(i + 1).last() == c);
            if i >= 1 {
                assert(cs@.take(i + 1)[i - 1] == cs@[i - 1]);
            }
        }
        if !ws {
            if prev_ws {
                let mut w: Vec<char> = Vec::new();
                w.push(c);
                out.push(w);
                proof {
                    assert(crate::text::char_vec_views(out@) =~= before.push(seq![c]));
                }
            } else {
                let last = out.len() - 1;
                let mut w = out[last].clone();
                w.push(c);
                out.set(last, w);
                proof {
                    assert(crate::text::char_vec_views(out@) =~= before.update(before.len() - 1, before.last().push(c)));
                }
            }
        }
        prev_ws = ws;
        i = i + 1;
    }
    proof {
        assert(cs@.take(cs@.len() as int) =~= cs@);
    }
    out
}

/// Finds the outbound interface in the output of `ip route show default`.
pub fn parse_outbound_interface(route: &str) -> (r: Option<String>)
    ensures
        match outbound_interface_spec(route@) {
            Some(name) => r matches Some(s) && s@ == name,
            None => r is None,
        },
{
    let w = split_words(route);
    let ghost ws = words(route@);
    let dev: Vec<char> = vec!['d', 'e', 'v'];
    proof {
        reveal_strlit("dev");
        assert(dev@ =~= "dev"@);
    }
    let mut i: usize = 0;
    while i < w.len() && i + 1 < w.len()
        invariant
            ws == words(route@),
            crate::text::char_vec_views(w@) == ws,
            dev@ == "dev"@,
            i <= ws.len(),
            forall|j: int| 0 <= j < i ==> ws[j] != "dev"@,
        decreases w.len() - i,
    {
        proof {
            assert(ws[i as int] == w@[i as int]@);
        }
        if crate::text::chars_eq(&w[i], &dev) {
            proof {
                assert(ws[i as int] == "dev"@);
                let k = choose|k: int| 0 <= k < ws.len() - 1 && ws[k] == "dev"@ && forall|j: int| 0 <= j < k ==> ws[j] != "dev"@;
                assert(k == i) by {
                    if k < i {
                        assert(ws[k] != "dev"@);
                    } else if k > i {
                        assert(ws[i as int] != "dev"@);
                    }
                }
                assert(ws[i + 1] == w@[i + 1]@);
            }
            return Some(string_of(&w[i + 1]));
        }
        i = i + 1;
    }
    proof {
        if exists|k: int| 0 <= k < ws.len() - 1 && ws[k] == "dev"@ {
            let k = choose|k: int| 0 <= k < ws.len() - 1 && ws[k] == "dev"@;
            assert(ws[k] != "dev"@);
        }
    }
    None
}

/// The failure when the default route names no interface.
pub fn no_outbound_interface_message(route: &str) -> (r: String)
    ensures
        r@ == "Could not find outbound interface in default route: "@ + crate::text::trim_spec(route@),
{
    let cs = chars_of(route);
    let t = string_of(&crate::text::trim_chars(&cs));
    let mut m = String::from_str("Could not find outbound interface in default route: ");
    m.append(t.as_str());
    m
}

} // verus!
