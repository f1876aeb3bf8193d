//! Hardware addresses written as text, and the aliases that name devices.

use crate::reading::{device_key, key_of};
use regex::Regex;
use std::collections::BTreeMap;
use vstd::prelude::*;
use vstd::string::{StrSliceExecFns, StringExecFns};

verus! {

/// A name given to the device with a hardware address.
#[derive(Clone, Debug)]
pub struct Alias {
    pub address: [u8; 6],
    pub name: String,
}

/// The regular expression that finds the bytes of a hardware address: one or
/// two hexadecimal digits in its second group, after an optional `0x` and
/// before an optional separator.
pub const MAC_PATTERN: &'static str = "(0x)?([0-9a-fA-F]{1,2})[:.-]?";

/// What the regular expression `pattern` finds in `haystack`: nothing where
/// the pattern does not compile; else, for each match from left to right, the
/// text of its group `group`, or nothing where that group took no part.
pub uninterp spec fn regex_captures(pattern: Seq<char>, group: nat, haystack: Seq<char>) -> Option<
    Seq<Option<Seq<char>>>,
>;

/// The texts of what was captured.
pub open spec fn capture_texts(captures: Seq<Option<String>>) -> Seq<Option<Seq<char>>> {
    Seq::new(
        captures.len(),
        |i: int|
            match captures[i] {
                Some(text) => Some(text@),
                None => None,
            },
    )
}

/// The texts of what a search gave.
pub open spec fn search_texts(found: Option<Vec<Option<String>>>) -> Option<
    Seq<Option<Seq<char>>>,
> {
    match found {
        Some(captures) => Some(capture_texts(captures@)),
        None => None,
    }
}

/// Compiles `pattern` with `Regex::new`, walks the matches in `haystack` with
/// `Regex::captures_iter`, and copies out of each the text of group `group`
/// (`Captures::get`, `Match::as_str`). The contract only gives the outcome
/// its name: it is a function of the pattern, the group and the haystack.
#[verifier::external_body]
fn search(pattern: &str, group: usize, haystack: &str) -> (found: Option<Vec<Option<String>>>)
    ensures
        search_texts(found) == regex_captures(pattern@, group as nat, haystack@),
{
    match Regex::new(pattern) {
        Ok(re) => Some(
            re.captures_iter(haystack).map(|c| c.get(group).map(|m| m.as_str().to_string())).collect(),
        ),
        Err(_) => None,
    }
}

/// The value of a hexadecimal digit in either case.
pub open spec fn hex_digit_value(c: char) -> Option<u8> {
    if '0' <= c && c <= '9' {
        Some((c as u32 - '0' as u32) as u8)
    } else if 'a' <= c && c <= 'f' {
        Some((c as u32 - 'a' as u32 + 10) as u8)
    } else if 'A' <= c && c <= 'F' {
        Some((c as u32 - 'A' as u32 + 10) as u8)
    } else {
        None
    }
}

/// The byte that one or two hexadecimal digits spell.
pub open spec fn hex_byte_value(text: Seq<char>) -> Option<u8> {
    if text.len() == 1 {
        hex_digit_value(text[0])
    } else if text.len() == 2 {
        match (hex_digit_value(text[0]), hex_digit_value(text[1])) {
            (Some(high), Some(low)) => Some((high * 16 + low) as u8),
            _ => None,
        }
    } else {
        None
    }
}

/// The byte that a captured text spells, where there is one.
pub open spec fn captured_byte(capture: Option<Seq<char>>) -> Option<u8> {
    match capture {
        Some(text) => hex_byte_value(text),
        None => None,
    }
}

/// The address that a text of `length` bytes gives, in which the search for
/// [`MAC_PATTERN`] ended as `found`.
///
/// A text shorter than 11 or longer than 17 bytes is no address. Otherwise
/// the search must have found six bytes, no more and no fewer. A search that
/// could not be made, or a capture that is not one or two hexadecimal
/// digits, gives no address either.
pub open spec fn mac_of_captures(length: nat, found: Option<Seq<Option<Seq<char>>>>) -> Result<
    Seq<u8>,
    Seq<char>,
> {
    if length < 11 || length > 17 {
        Err("Invalid mac address"@)
    } else {
        match found {
            Some(captures) => if captures.len() != 6 {
                Err("Invalid byte count"@)
            } else if forall|i: int| 0 <= i < 6 ==> captured_byte(#[trigger] captures[i]) is Some {
                Ok(Seq::new(6, |i: int| captured_byte(captures[i]).unwrap()))
            } else {
                Err("Invalid mac address"@)
            },
            None => Err("Invalid mac address"@),
        }
    }
}

/// The address that the text `s` gives.
pub open spec fn parsed_mac(s: Seq<char>) -> Result<Seq<u8>, Seq<char>> {
    mac_of_captures(vstd::utf8::encode_utf8(s).len(), regex_captures(MAC_PATTERN@, 2, s))
}

/// Whether `outcome` is the address or the message that `expected` holds.
pub open spec fn mac_outcome_is(
    outcome: Result<[u8; 6], &'static str>,
    expected: Result<Seq<u8>, Seq<char>>,
) -> bool {
    match expected {
        Ok(bytes) => outcome matches Ok(mac) && mac@ == bytes,
        Err(message) => outcome matches Err(text) && text@ == message,
    }
}

/// Reads one hexadecimal digit.
fn hex_digit(c: char) -> (value: Option<u8>)
    ensures
        value == hex_digit_value(c),
{
    if '0' <= c && c <= '9' {
        Some((c as u32 - '0' as u32) as u8)
    } else if 'a' <= c && c <= 'f' {
        Some((c as u32 - 'a' as u32 + 10) as u8)
    } else if 'A' <= c && c <= 'F' {
        Some((c as u32 - 'A' as u32 + 10) as u8)
    } else {
        None
    }
}

/// Reads the byte that one or two hexadecimal digits spell.
pub fn hex_byte(text: &str) -> (value: Option<u8>)
    ensures
        value == hex_byte_value(text@),
{
    let length = text.unicode_len();
    if length == 1 {
        hex_digit(text.get_char(0))
    } else if length == 2 {
        match (hex_digit(text.get_char(0)), hex_digit(text.get_char(1))) {
            (Some(high), Some(low)) => Some(high * 16 + low),
            _ => None,
        }
    } else {
        None
    }
}

/// Reads an address out of what the search for [`MAC_PATTERN`] found in a
/// text of `length` bytes.
pub fn mac_from_captures(length: usize, found: &Option<Vec<Option<String>>>) -> (outcome: Result<
    [u8; 6],
    &'static str,
>)
    ensures
        mac_outcome_is(outcome, mac_of_captures(length as nat, search_texts(*found))),
{
    if length < 11 || length > 17 {
        return Err("Invalid mac address");
    }
    match found {
        Some(captures) => {
            let ghost texts = capture_texts(captures@);
            assert(search_texts(*found) == Some(texts));
            if captures.len() != 6 {
                return Err("Invalid byte count");
            }
            let mut mac: [u8; 6] = [0, 0, 0, 0, 0, 0];
            let mut i: usize = 0;
            while i < 6
                invariant
                    i <= 6,
                    captures.len() == 6,
                    11 <= length <= 17,
                    texts == capture_texts(captures@),
                    search_texts(*found) == Some(texts),
                    forall|j: int| 0 <= j < i ==> captured_byte(#[trigger] texts[j]) == Some(mac@[j]),
                decreases 6 - i,
            {
                let byte = match &captures[i] {
                    Some(text) => hex_byte(text.as_str()),
                    None => None,
                };
                assert(byte == captured_byte(texts[i as int]));
                match byte {
                    Some(b) => {
                        mac[i] = b;
                    },
                    None => {
                        assert(captured_byte(texts[i as int]) is None);
                        return Err("Invalid mac address");
                    },
                }
                i += 1;
            }
            assert(mac@ =~= Seq::new(6, |i: int| captured_byte(texts[i]).unwrap()));
            Ok(mac)
        },
        None => Err("Invalid mac address"),
    }
}

/// Parses a hardware address written as six bytes in hexadecimal, each of
/// one or two digits, with or without a leading `0x` and a separator `:`,
/// `.` or `-`.
pub fn str_to_mac(s: &str) -> (outcome: Result<[u8; 6], &'static str>)
    ensures
        mac_outcome_is(outcome, parsed_mac(s@)),
{
    let length = s.as_bytes().len();
    if length < 11 || length > 17 {
        return Err("Invalid mac address");
    }
    let found = search(MAC_PATTERN, 2, s);
    mac_from_captures(length, &found)
}

/// Whether `c` stands at index `i` of `s` and nowhere before.
pub open spec fn is_first(s: Seq<char>, c: char, i: int) -> bool {
    &&& 0 <= i < s.len()
    &&& s[i] == c
    &&& forall|j: int| 0 <= j < i ==> s[j] != c
}

/// The index at which `c` first stands in `s`.
pub open spec fn first_position(s: Seq<char>, c: char) -> Option<int> {
    if exists|i: int| is_first(s, c, i) {
        Some(choose|i: int| is_first(s, c, i))
    } else {
        None
    }
}

/// The alias that the text `src` gives, as the bytes of its address and its
/// name: the address stands before the first `=`, the name is all that
/// follows it. A text without `=` is no alias.
pub open spec fn alias_of(src: Seq<char>) -> Result<(Seq<u8>, Seq<char>), Seq<char>> {
    match first_position(src, '=') {
        Some(i) => match parsed_mac(src.take(i)) {
            Ok(bytes) => Ok((bytes, src.skip(i + 1))),
            Err(message) => Err(message),
        },
        None => Err("invalid alias"@),
    }
}

/// Whether `outcome` is the alias or the message that `expected` holds.
pub open spec fn alias_outcome_is(
    outcome: Result<Alias, String>,
    expected: Result<(Seq<u8>, Seq<char>), Seq<char>>,
) -> bool {
    match expected {
        Ok((bytes, name)) => outcome matches Ok(alias) && alias.address@ == bytes && alias.name@
            == name,
        Err(message) => outcome matches Err(text) && text@ == message,
    }
}

/// Finds the first `=` of `src`.
fn find_separator(src: &str) -> (at: Option<usize>)
    ensures
        match at {
            Some(i) => first_position(src@, '=') == Some(i as int) && i < src@.len(),
            None => first_position(src@, '=') is None,
        },
{
    let length = src.unicode_len();
    let mut i: usize = 0;
    while i < length
        invariant
            i <= length,
            length == src@.len(),
            forall|j: int| 0 <= j < i ==> src@[j] != '=',
        decreases length - i,
    {
        if src.get_char(i) == '=' {
            assert(is_first(src@, '=', i as int));
            return Some(i);
        }
        i += 1;
    }
    None
}

/// Parses an alias written as an address, `=`, and a name.
///
/// The address before the `=` must be one that [`str_to_mac`] reads.
pub fn parse_alias(src: &str) -> (outcome: Result<Alias, String>)
    requires
        first_position(src@, '=') matches Some(i) ==> parsed_mac(src@.take(i)) is Ok,
    ensures
        alias_outcome_is(outcome, alias_of(src@)),
{
    match find_separator(src) {
        Some(i) => {
            let length = src.unicode_len();
            let address = src.substring_char(0, i);
            let name = src.substring_char(i + 1, length);
            assert(address@ == src@.take(i as int));
            assert(name@ == src@.skip(i + 1));
            match str_to_mac(address) {
                Ok(mac) => Ok(Alias { address: mac, name: String::from_str(name) }),
                Err(message) => Err(String::from_str(message)),
            }
        },
        None => Err(String::from_str("invalid alias")),
    }
}

/// Parses an alias as [`parse_alias`] does, and reports an address that
/// cannot be read with the message that [`str_to_mac`] gives for it.
pub fn parse_alias_checked(src: &str) -> (outcome: Result<Alias, String>)
    ensures
        alias_outcome_is(outcome, alias_of(src@)),
{
    match find_separator(src) {
        Some(i) => {
            let address = src.substring_char(0, i);
            assert(address@ == src@.take(i as int));
            match str_to_mac(address) {
                Ok(_) => parse_alias(src),
                Err(message) => Err(String::from_str(message)),
            }
        },
        None => parse_alias(src),
    }
}

/// Whether the alias at index `i` is the last of `aliases` for its address.
pub open spec fn is_last_for_address(aliases: Seq<Alias>, i: int) -> bool {
    &&& 0 <= i < aliases.len()
    &&& forall|j: int|
        i < j < aliases.len() ==> device_key(#[trigger] aliases[j].address) != device_key(
            aliases[i].address,
        )
}

/// Whether `map` holds, under the key of each address of `aliases`, the name
/// that the last alias for that address gives, and nothing else.
pub open spec fn maps_aliases(map: Map<u64, String>, aliases: Seq<Alias>) -> bool {
    &&& forall|k: u64|
        map.contains_key(k) <==> exists|i: int|
            0 <= i < aliases.len() && device_key(#[trigger] aliases[i].address) == k
    &&& forall|i: int| #[trigger]
        is_last_for_address(aliases, i) ==> map[device_key(aliases[i].address)]@
            == aliases[i].name@
}

/// Whether the order of `u64` keys is one that an ordered map can rely on.
spec fn keys_are_ordered() -> bool {
    vstd::laws_cmp::obeys_cmp::<u64>() && vstd::std_specs::btree::key_obeys_cmp_spec::<u64>()
}

/// The order of `u64` keys is one that an ordered map can rely on.
proof fn lemma_keys_are_ordered()
    ensures
        keys_are_ordered(),
{
    broadcast use vstd::laws_cmp::group_laws_cmp;
    broadcast use vstd::std_specs::btree::group_btree_axioms;

}

/// Collects aliases into a map from the key of an address to its name. Of
/// two aliases for one address the later one counts.
pub fn alias_map(aliases: &Vec<Alias>) -> (map: BTreeMap<u64, String>)
    ensures
        maps_aliases(map@, aliases@),
{
    broadcast use vstd::std_specs::btree::group_btree_axioms;

    proof {
        lemma_keys_are_ordered();
    }
    let mut map: BTreeMap<u64, String> = BTreeMap::new();
    let mut n: usize = 0;
    while n < aliases.len()
        invariant
            n <= aliases.len(),
            keys_are_ordered(),
            maps_aliases(map@, aliases@.take(n as int)),
        decreases aliases.len() - n,
    {
        let ghost before = map@;
        let ghost seen = aliases@.take(n as int);
        let ghost next = aliases@.take(n + 1);
        let key = key_of(&aliases[n].address);
        let name = aliases[n].name.clone();
        map.insert(key, name);
        n += 1;
        proof {
            assert(next[n - 1] == aliases@[n - 1]);
            assert forall|k: u64| map@.contains_key(k) implies exists|i: int|
                0 <= i < next.len() && device_key(#[trigger] next[i].address) == k by {
                if k == key {
                    assert(device_key(next[n - 1].address) == k);
                } else {
                    assert(before.contains_key(k));
                    let i = choose|i: int|
                        0 <= i < seen.len() && device_key(#[trigger] seen[i].address) == k;
                    assert(next[i] == seen[i]);
                    assert(device_key(next[i].address) == k);
                }
            }
            assert forall|k: u64|
                (exists|i: int|
                    0 <= i < next.len() && device_key(
                        #[trigger] next[i].address,
                    ) == k) implies map@.contains_key(k) by {
                let i = choose|i: int|
                    0 <= i < next.len() && device_key(#[trigger] next[i].address) == k;
                if i < n - 1 {
                    assert(seen[i] == next[i]);
                    assert(device_key(seen[i].address) == k);
                    assert(before.contains_key(k));
                }
            }
            assert forall|i: int| #[trigger] is_last_for_address(next, i) implies map@[device_key(
                next[i].address,
            )]@ == next[i].name@ by {
                if i < n - 1 {
                    assert(seen[i] == next[i]);
                    assert(device_key(next[n - 1].address) != device_key(next[i].address));
                    assert forall|j: int| i < j < seen.len() implies device_key(
                        #[trigger] seen[j].address,
                    ) != device_key(seen[i].address) by {
                        assert(seen[j] == next[j]);
                    }
                    assert(is_last_for_address(seen, i));
                }
            }
        }
    }
    assert(aliases@.take(n as int) =~= aliases@);
    map
}

} // verus!
