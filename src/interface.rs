use vstd::prelude::*;

use vstd::string::StringExecFns;

use crate::text::{
    ascii_lower, ascii_lower_char, ascii_upper, ascii_upper_char, chars_of, contains, digit_at, digit_at_index, equals,
    has_infix, has_prefix, is_ascii_seq, lower_of, lowercase, starts_with,
};

verus! {

/// The classifier's rules, on a name that is already lower case. The first rule
/// whose prefix and digit match decides.
pub open spec fn physical_lower(n: Seq<char>) -> bool {
    if has_prefix(n, seq!['e', 'n']) && digit_at(n, 2) {
        !(has_infix(n, seq!['b', 'r', 'i', 'd', 'g', 'e'])
            || has_infix(n, seq!['v', 'i', 'r', 't', 'u', 'a', 'l'])
            || has_infix(n, seq!['u', 't', 'u', 'n']))
    } else if has_prefix(n, seq!['e', 't', 'h']) && digit_at(n, 3) {
        true
    } else if has_prefix(n, seq!['w', 'l', 'a', 'n']) && digit_at(n, 4) {
        true
    } else if (has_prefix(n, seq!['e', 'n', 'p']) || has_prefix(n, seq!['e', 'n', 's'])
        || has_prefix(n, seq!['e', 'n', 'o']) || has_prefix(n, seq!['e', 'n', 'x']))
        && digit_at(n, 3) {
        true
    } else if has_prefix(n, seq!['w', 'l', 'p']) && digit_at(n, 3) {
        true
    } else {
        n == seq!['w', 'i', '-', 'f', 'i'] || n == seq!['w', 'i', 'f', 'i']
            || n == seq!['e', 't', 'h', 'e', 'r', 'n', 'e', 't']
    }
}

/// Whether an interface of this name is shown: the rules applied to its lower-case form.
pub open spec fn physical(name: Seq<char>) -> bool {
    physical_lower(lower_of(name))
}

/// Applies the classifier's rules to a name that the caller has already lowered.
pub fn is_physical_lowered(name_lower: &str) -> (r: bool)
    ensures
        r == physical_lower(name_lower@),
{
    let n = chars_of(name_lower);
    let s = n.as_slice();
    if starts_with(s, &['e', 'n']) && digit_at_index(s, 2) {
        return !(contains(s, &['b', 'r', 'i', 'd', 'g', 'e']) || contains(
            s,
            &['v', 'i', 'r', 't', 'u', 'a', 'l'],
        ) || contains(s, &['u', 't', 'u', 'n']));
    }
    if starts_with(s, &['e', 't', 'h']) && digit_at_index(s, 3) {
        return true;
    }
    if starts_with(s, &['w', 'l', 'a', 'n']) && digit_at_index(s, 4) {
        return true;
    }
    if (starts_with(s, &['e', 'n', 'p']) || starts_with(s, &['e', 'n', 's']) || starts_with(
        s,
        &['e', 'n', 'o'],
    ) || starts_with(s, &['e', 'n', 'x'])) && digit_at_index(s, 3) {
        return true;
    }
    if starts_with(s, &['w', 'l', 'p']) && digit_at_index(s, 3) {
        return true;
    }
    equals(s, &['w', 'i', '-', 'f', 'i']) || equals(s, &['w', 'i', 'f', 'i']) || equals(
        s,
        &['e', 't', 'h', 'e', 'r', 'n', 'e', 't'],
    )
}

/// Whether the interface is backed by hardware (Ethernet, Wi-Fi) and so is shown;
/// virtual, tunnel, loopback, bridge and unknown interfaces are not.
pub fn is_physical_interface(interface_name: &str) -> (r: bool)
    ensures
        r == physical(interface_name@),
        is_ascii_seq(interface_name@) ==> r == physical_lower(ascii_lower(interface_name@)),
{
    let lower = lowercase(interface_name);
    is_physical_lowered(lower.as_str())
}

proof fn lemma_ascii_case_forms(s: Seq<char>)
    ensures
        ascii_lower(ascii_lower(s)) == ascii_lower(s),
        ascii_lower(ascii_upper(s)) == ascii_lower(s),
        is_ascii_seq(s) ==> is_ascii_seq(ascii_lower(s)),
        is_ascii_seq(s) ==> is_ascii_seq(ascii_upper(s)),
{
    assert forall|i: int| 0 <= i < s.len() implies #[trigger] ascii_lower_char(
        ascii_lower_char(s[i]),
    ) == ascii_lower_char(s[i]) && ascii_lower_char(ascii_upper_char(s[i])) == ascii_lower_char(
        s[i],
    ) by {
        let c = s[i];
        if 'A' <= c && c <= 'Z' {
            assert(ascii_lower_char(c) == ((c as u32) + 32) as char);
        }
        if 'a' <= c && c <= 'z' {
            assert(ascii_upper_char(c) == ((c as u32) - 32) as char);
        }
    }
    assert(ascii_lower(ascii_lower(s)) =~= ascii_lower(s));
    assert(ascii_lower(ascii_upper(s)) =~= ascii_lower(s));
}

/// The classifier does not see case: for an ASCII name, the name, its
/// lower-case form and its upper-case form are all ASCII, and
/// `is_physical_interface` gives the same answer for all three.
pub proof fn lemma_physical_ignores_case(name: Seq<char>)
    requires
        is_ascii_seq(name),
    ensures
        is_ascii_seq(ascii_lower(name)),
        is_ascii_seq(ascii_upper(name)),
        physical_lower(ascii_lower(name)) == physical_lower(ascii_lower(ascii_lower(name))),
        physical_lower(ascii_lower(name)) == physical_lower(ascii_lower(ascii_upper(name))),
{
    lemma_ascii_case_forms(name);
}

pub open spec fn en0() -> Seq<char> {
    seq!['e', 'n', '0']
}

pub open spec fn opt_chars(o: Option<String>) -> Option<Seq<char>> {
    match o {
        Some(s) => Some(s@),
        None => None,
    }
}

pub open spec fn wifi_label() -> Seq<char> {
    "Wi-Fi"@
}

pub open spec fn ethernet_label() -> Seq<char> {
    "以太网"@
}

pub open spec fn thunderbolt_label() -> Seq<char> {
    "Thunderbolt"@
}

/// The label rules, given the lower-case name, the name as the system reports
/// it, and the SSID of the active Wi-Fi network if one was found.
pub open spec fn label_lower(
    lower: Seq<char>,
    raw: Seq<char>,
    ssid: Option<Seq<char>>,
) -> Seq<char> {
    if lower == en0() {
        match ssid {
            Some(s) => if s.len() > 0 {
                s
            } else {
                wifi_label()
            },
            None => wifi_label(),
        }
    } else if has_infix(lower, seq!['w', 'i', '-', 'f', 'i']) || has_infix(
        lower,
        seq!['w', 'i', 'f', 'i'],
    ) || has_infix(lower, seq!['w', 'l', 'a', 'n']) {
        wifi_label()
    } else if has_prefix(lower, seq!['e', 'n', '1']) || has_prefix(lower, seq!['e', 'n', '2'])
        || has_prefix(lower, seq!['e', 'n', '3']) || has_prefix(lower, seq!['e', 'n', '4'])
        || has_prefix(lower, seq!['e', 'n', '5']) || has_infix(lower, seq!['e', 't', 'h']) {
        ethernet_label()
    } else if has_infix(lower, seq!['t', 'h', 'u', 'n', 'd', 'e', 'r', 'b', 'o', 'l', 't']) {
        thunderbolt_label()
    } else {
        raw
    }
}

/// The label shown for an interface of this name.
pub open spec fn label(name: Seq<char>, ssid: Option<Seq<char>>) -> Seq<char> {
    label_lower(lower_of(name), name, ssid)
}

/// Whether the label of this interface is the Wi-Fi network's SSID, so that the
/// caller should look that SSID up first.
pub fn wants_wifi_ssid(interface_name: &str) -> (r: bool)
    ensures
        r == (lower_of(interface_name@) == en0()),
        is_ascii_seq(interface_name@) ==> r == (ascii_lower(interface_name@) == en0()),
{
    let lower = lowercase(interface_name);
    let n = chars_of(lower.as_str());
    equals(n.as_slice(), &['e', 'n', '0'])
}

/// Applies the label rules to a name that the caller has already lowered.
pub fn display_name_lowered(name_lower: &str, interface_name: &str, wifi_ssid: Option<String>) -> (r:
    String)
    ensures
        r@ == label_lower(name_lower@, interface_name@, opt_chars(wifi_ssid)),
{
    let n = chars_of(name_lower);
    let s = n.as_slice();
    if equals(s, &['e', 'n', '0']) {
        match wifi_ssid {
            Some(ssid) => {
                if ssid.as_str().is_empty() {
                    String::from_str("Wi-Fi")
                } else {
                    ssid
                }
            },
            None => String::from_str("Wi-Fi"),
        }
    } else if contains(s, &['w', 'i', '-', 'f', 'i']) || contains(s, &['w', 'i', 'f', 'i'])
        || contains(s, &['w', 'l', 'a', 'n']) {
        String::from_str("Wi-Fi")
    } else if starts_with(s, &['e', 'n', '1']) || starts_with(s, &['e', 'n', '2']) || starts_with(
        s,
        &['e', 'n', '3'],
    ) || starts_with(s, &['e', 'n', '4']) || starts_with(s, &['e', 'n', '5']) || contains(
        s,
        &['e', 't', 'h'],
    ) {
        String::from_str("以太网")
    } else if contains(s, &['t', 'h', 'u', 'n', 'd', 'e', 'r', 'b', 'o', 'l', 't']) {
        String::from_str("Thunderbolt")
    } else {
        String::from_str(interface_name)
    }
}

/// The label shown for an interface: the Wi-Fi network's SSID for `en0` when one
/// was found, a generic label for Wi-Fi, Ethernet and Thunderbolt names, else
/// the name itself. `wifi_ssid` is consulted only for `en0`.
pub fn get_display_name(interface_name: &str, wifi_ssid: Option<String>) -> (r: String)
    ensures
        r@ == label(interface_name@, opt_chars(wifi_ssid)),
        is_ascii_seq(interface_name@) ==> r@ == label_lower(
            ascii_lower(interface_name@),
            interface_name@,
            opt_chars(wifi_ssid),
        ),
{
    let lower = lowercase(interface_name);
    display_name_lowered(lower.as_str(), interface_name, wifi_ssid)
}

} // verus!
