//! The census as comma-separated tables: one row per relay address, for all
//! relays, for guards and for exits.
//!
//! An address of the census is text of the form `host:port`, or
//! `[host]:port` where the host itself holds colons. This module takes such
//! text apart and reads the port. Whether the host is a well-formed network
//! address is for the caller to say: a relay holds each of its addresses
//! either read, with the host in the spelling the row shall carry, or marked
//! as unreadable.

use vstd::prelude::*;
use vstd::string::{StrSliceExecFns, StringExecFns};
use crate::relay::{exit_marker, flags_hold, guard_marker, holds_flag};
use crate::text::{chars_of, decimal_text, lemma_decimal_text_is_digits, push_decimal, texts};

verus! {

/// The first position of `c` in `s`.
pub open spec fn first_index(s: Seq<char>, c: char) -> Option<int> {
    if exists|k: int| 0 <= k < s.len() && s[k] == c {
        Some(choose|k: int| 0 <= k < s.len() && s[k] == c && forall|j: int| 0 <= j < k ==> s[j] != c)
    } else {
        None
    }
}

/// The last position of `c` in `s`.
pub open spec fn last_index(s: Seq<char>, c: char) -> Option<int> {
    if exists|k: int| 0 <= k < s.len() && s[k] == c {
        Some(
            choose|k: int|
                0 <= k < s.len() && s[k] == c && forall|j: int| k < j < s.len() ==> s[j] != c,
        )
    } else {
        None
    }
}

/// Host and port text of an address. With a leading `[` the host runs to
/// the first `]`, which a `:` and the port must follow; else the host runs
/// to the last `:` and the port follows it. Any other text is no address.
pub open spec fn framed(addr: Seq<char>) -> Option<(Seq<char>, Seq<char>)> {
    if addr.len() > 0 && addr[0] == '[' {
        let rest = addr.skip(1);
        match first_index(rest, ']') {
            Some(k) => if k + 1 < rest.len() && rest[k + 1] == ':' {
                Some((rest.take(k), rest.skip(k + 2)))
            } else {
                None
            },
            None => None,
        }
    } else {
        match last_index(addr, ':') {
            Some(k) => Some((addr.take(k), addr.skip(k + 1))),
            None => None,
        }
    }
}

/// Whether `c` is a decimal digit.
pub open spec fn is_digit(c: char) -> bool {
    '0' <= c && c <= '9'
}

/// The number that a run of decimal digits stands for.
pub open spec fn digits_value(s: Seq<char>) -> nat
    decreases s.len(),
{
    if s.len() == 0 {
        0
    } else {
        digits_value(s.drop_last()) * 10 + (s.last() as nat - '0' as nat) as nat
    }
}

/// Whether every character of `s` is a decimal digit.
pub open spec fn all_digits(s: Seq<char>) -> bool {
    forall|i: int| 0 <= i < s.len() ==> is_digit(#[trigger] s[i])
}

/// `text` without the `+` that may stand at its head.
pub open spec fn unsigned_part(text: Seq<char>) -> Seq<char> {
    if text.len() > 0 && text[0] == '+' {
        text.skip(1)
    } else {
        text
    }
}

/// The port that `text` stands for: decimal digits, at least one, that say a
/// number up to 65535; a `+` may stand before them. Leading zeros count for
/// nothing. Any other text is no port.
pub open spec fn port_value(text: Seq<char>) -> Option<u16> {
    let digits = unsigned_part(text);
    if digits.len() > 0 && all_digits(digits) && digits_value(digits) <= 65535 {
        Some(digits_value(digits) as u16)
    } else {
        None
    }
}

/// Host text and port of an address, where it has the form of one and its
/// port can be read.
pub open spec fn split_address(addr: Seq<char>) -> Option<(Seq<char>, u16)> {
    match framed(addr) {
        Some((host, port)) => match port_value(port) {
            Some(number) => Some((host, number)),
            None => None,
        },
        None => None,
    }
}

/// A run of digits says at least as much as any of its beginnings.
proof fn lemma_digits_value_grows(s: Seq<char>, k: int)
    requires
        0 <= k <= s.len(),
        all_digits(s),
    ensures
        digits_value(s.take(k)) <= digits_value(s),
    decreases s.len() - k,
{
    if k == s.len() {
        assert(s.take(k) =~= s);
    } else {
        lemma_digits_value_grows(s, k + 1);
        assert(s.take(k + 1).drop_last() =~= s.take(k));
    }
}

/// Reads a port.
pub fn parse_port(text: &str) -> (port: Option<u16>)
    ensures
        port == port_value(text@),
{
    let chars = chars_of(text);
    let start: usize = if chars.len() > 0 && chars[0] == '+' {
        1
    } else {
        0
    };
    let ghost digits = chars@.skip(start as int);
    proof {
        assert(chars@.skip(0) =~= chars@);
        assert(digits == unsigned_part(text@));
    }
    if start == chars.len() {
        return None;
    }
    let mut value: u32 = 0;
    let mut i: usize = start;
    assert(digits.take(0) =~= Seq::<char>::empty());
    while i < chars.len()
        invariant
            start <= i <= chars.len(),
            chars@ == text@,
            digits == chars@.skip(start as int),
            digits == unsigned_part(text@),
            forall|j: int| 0 <= j < i - start ==> is_digit(#[trigger] digits[j]),
            value == digits_value(digits.take(i - start)),
            value <= 65535,
        decreases chars.len() - i,
    {
        let c = chars[i];
        assert(c == digits[i - start]);
        if c < '0' || c > '9' {
            assert(!is_digit(digits[i - start]));
            return None;
        }
        let d: u32 = (c as u32) - ('0' as u32);
        let next: u32 = value * 10 + d;
        proof {
            assert(digits.take(i + 1 - start).drop_last() =~= digits.take(i - start));
            assert(next == digits_value(digits.take(i + 1 - start)));
        }
        if next > 65535 {
            proof {
                if all_digits(digits) {
                    lemma_digits_value_grows(digits, i + 1 - start);
                }
            }
            return None;
        }
        value = next;
        i += 1;
    }
    assert(digits.take(i - start) =~= digits);
    Some(value as u16)
}

/// The first position of a character is where it stands with no earlier
/// occurrence.
proof fn lemma_first_index(s: Seq<char>, c: char, k: int)
    requires
        0 <= k < s.len(),
        s[k] == c,
        forall|j: int| 0 <= j < k ==> s[j] != c,
    ensures
        first_index(s, c) == Some(k),
{
    let found = first_index(s, c).unwrap();
    if found < k {
        assert(s[found] != c);
    } else if found > k {
        assert(s[k] != c);
    }
}

/// The last position of a character is where it stands with no later
/// occurrence.
proof fn lemma_last_index(s: Seq<char>, c: char, k: int)
    requires
        0 <= k < s.len(),
        s[k] == c,
        forall|j: int| k < j < s.len() ==> s[j] != c,
    ensures
        last_index(s, c) == Some(k),
{
    let found = last_index(s, c).unwrap();
    if found < k {
        assert(s[k] != c);
    } else if found > k {
        assert(s[found] != c);
    }
}

/// Host and port text of an address that begins with `[`.
fn frame_bracketed<'a>(addr: &'a str, chars: &Vec<char>) -> (parts: Option<(&'a str, &'a str)>)
    requires
        chars@ == addr@,
        chars@.len() > 0,
        chars@[0] == '[',
    ensures
        match parts {
            Some((host, port)) => framed(addr@) == Some((host@, port@)),
            None => framed(addr@) is None,
        },
{
    let n = chars.len();
    let ghost rest = chars@.skip(1);
    let mut k: usize = 1;
    while k < n && chars[k] != ']'
        invariant
            1 <= k <= n,
            n == chars.len(),
            rest == chars@.skip(1),
            forall|j: int| 0 <= j < k - 1 ==> rest[j] != ']',
        decreases n - k,
    {
        assert(rest[k - 1] == chars@[k as int]);
        k += 1;
    }
    if k == n {
        assert(first_index(rest, ']') is None);
        return None;
    }
    proof {
        assert(rest[k - 1] == chars@[k as int]);
        lemma_first_index(rest, ']', k - 1);
    }
    if k + 1 >= n {
        return None;
    }
    assert(rest[k as int] == chars@[k + 1]);
    if chars[k + 1] != ':' {
        return None;
    }
    let host = addr.substring_char(1, k);
    let port = addr.substring_char(k + 2, n);
    proof {
        assert(host@ =~= rest.take(k - 1));
        assert(port@ =~= rest.skip(k + 1));
    }
    Some((host, port))
}

/// Host and port text of an address that does not begin with `[`.
fn frame_plain<'a>(addr: &'a str, chars: &Vec<char>) -> (parts: Option<(&'a str, &'a str)>)
    requires
        chars@ == addr@,
        !(chars@.len() > 0 && chars@[0] == '['),
    ensures
        match parts {
            Some((host, port)) => framed(addr@) == Some((host@, port@)),
            None => framed(addr@) is None,
        },
{
    let n = chars.len();
    let mut k: usize = n;
    while k > 0 && chars[k - 1] != ':'
        invariant
            k <= n,
            n == chars.len(),
            forall|j: int| k <= j < n ==> chars@[j] != ':',
        decreases k,
    {
        k -= 1;
    }
    if k == 0 {
        assert(last_index(chars@, ':') is None);
        return None;
    }
    proof {
        lemma_last_index(chars@, ':', k - 1);
    }
    let host = addr.substring_char(0, k - 1);
    let port = addr.substring_char(k, n);
    proof {
        assert(host@ =~= chars@.take(k - 1));
        assert(port@ =~= chars@.skip(k as int));
    }
    Some((host, port))
}

/// Takes an address apart into the text of its host and its port. Returns
/// `None` exactly where the text has not the form of an address or its port
/// cannot be read. The host is handed out as it stands, unread.
pub fn split_or_address(addr: &str) -> (parts: Option<(String, u16)>)
    ensures
        match parts {
            Some((host, port)) => split_address(addr@) == Some((host@, port)),
            None => split_address(addr@) is None,
        },
{
    let chars = chars_of(addr);
    let frame = if chars.len() > 0 && chars[0] == '[' {
        frame_bracketed(addr, &chars)
    } else {
        frame_plain(addr, &chars)
    };
    match frame {
        Some((host, port_text)) => match parse_port(port_text) {
            Some(port) => Some((String::from_str(host), port)),
            None => None,
        },
        None => None,
    }
}

/// A relay address that was read: the host in the spelling that a row
/// carries, and the port.
#[derive(Clone, Debug)]
pub struct OrAddress {
    pub ip: String,
    pub port: u16,
}

impl View for OrAddress {
    type V = (Seq<char>, u16);

    open spec fn view(&self) -> (Seq<char>, u16) {
        (self.ip@, self.port)
    }
}

/// The model of an address that may be unreadable.
pub open spec fn address_view(address: Option<OrAddress>) -> Option<(Seq<char>, u16)> {
    match address {
        Some(a) => Some(a@),
        None => None,
    }
}

/// One relay of the census, as the tables need it.
#[derive(Clone, Debug)]
pub struct TorNode {
    pub fingerprint: String,
    /// The addresses of the relay in the order of the census; `None` stands
    /// for an address that could not be read.
    pub or_addresses: Vec<Option<OrAddress>>,
    pub flags: Vec<String>,
}

/// The mathematical model of a [`TorNode`].
pub struct TorNodeView {
    pub fingerprint: Seq<char>,
    pub or_addresses: Seq<Option<(Seq<char>, u16)>>,
    pub flags: Seq<Seq<char>>,
}

impl View for TorNode {
    type V = TorNodeView;

    open spec fn view(&self) -> TorNodeView {
        TorNodeView {
            fingerprint: self.fingerprint@,
            or_addresses: self.or_addresses@.map_values(|a: Option<OrAddress>| address_view(a)),
            flags: texts(self.flags@),
        }
    }
}

/// The models of a sequence of nodes.
pub open spec fn node_views(nodes: Seq<TorNode>) -> Seq<TorNodeView> {
    nodes.map_values(|n: TorNode| n@)
}

/// The row of one address: fingerprint, host and port with commas between
/// them and no blank.
pub open spec fn row_text(fingerprint: Seq<char>, host: Seq<char>, port: u16) -> Seq<char> {
    fingerprint + ","@ + host + ","@ + decimal_text(port as nat)
}

/// The row that an address of a relay gives; an unreadable address gives
/// none.
pub open spec fn row_of(fingerprint: Seq<char>) -> spec_fn(Option<(Seq<char>, u16)>) -> Option<
    Seq<char>,
> {
    |address: Option<(Seq<char>, u16)>|
        match address {
            Some((host, port)) => Some(row_text(fingerprint, host, port)),
            None => None,
        }
}

/// The rows of a relay: one for each address that could be read, in the
/// order of the addresses.
pub open spec fn node_rows(node: TorNodeView) -> Seq<Seq<char>> {
    node.or_addresses.filter_map(row_of(node.fingerprint))
}

/// Whether `c` may stand in a field of a row: it is no comma, which would
/// part the field in two, and no blank, bracket or line break.
pub open spec fn is_field_char(c: char) -> bool {
    c != ',' && c != ' ' && c != '[' && c != ']' && c != '\n' && c != '\r'
}

/// Whether `text` can be a field of a row as it stands: each of its
/// characters is a field character. The canonical spelling of a network
/// address is such a text.
pub open spec fn is_field_text(text: Seq<char>) -> bool {
    forall|i: int| 0 <= i < text.len() ==> is_field_char(#[trigger] text[i])
}

/// The commas.
pub open spec fn is_comma() -> spec_fn(char) -> bool {
    |c: char| c == ','
}

/// How many commas `text` holds.
pub open spec fn comma_count(text: Seq<char>) -> nat {
    text.filter(is_comma()).len()
}

/// Whether every address of a relay that was read has a host that can be a
/// field of a row.
pub open spec fn has_field_hosts(node: TorNodeView) -> bool {
    forall|i: int|
        0 <= i < node.or_addresses.len() ==> (match #[trigger] node.or_addresses[i] {
            Some((host, _)) => is_field_text(host),
            None => true,
        })
}

/// The shape of a row of a relay with the given fingerprint: it begins with
/// the fingerprint; what follows holds exactly two commas, the first of them
/// at its head, and neither blank, bracket nor line break.
pub open spec fn is_row_of(fingerprint: Seq<char>, row: Seq<char>) -> bool {
    &&& row.len() > fingerprint.len()
    &&& row.take(fingerprint.len() as int) == fingerprint
    &&& row[fingerprint.len() as int] == ','
    &&& comma_count(row.skip(fingerprint.len() as int)) == 2
    &&& forall|i: int|
        fingerprint.len() <= i < row.len() ==> (#[trigger] row[i]) == ',' || is_field_char(row[i])
}

/// A text of field characters holds no comma.
pub proof fn lemma_field_text_has_no_comma(text: Seq<char>)
    requires
        is_field_text(text),
    ensures
        comma_count(text) == 0,
    decreases text.len(),
{
    reveal(Seq::filter);
    if text.len() > 0 {
        lemma_field_text_has_no_comma(text.drop_last());
    }
}

/// A text holds as many commas as its parts together.
pub proof fn lemma_comma_count_add(a: Seq<char>, b: Seq<char>)
    ensures
        comma_count(a + b) == comma_count(a) + comma_count(b),
    decreases b.len(),
{
    reveal(Seq::filter);
    if b.len() == 0 {
        assert(a + b =~= a);
    } else {
        lemma_comma_count_add(a, b.drop_last());
        assert((a + b).drop_last() =~= a + b.drop_last());
    }
}

/// The shape of a row. Where the host can be a field, the row begins with
/// the fingerprint and goes on with a comma, the host, a comma and the port,
/// with no blank, bracket or line break among them. Where the fingerprint
/// can be a field too, the whole row holds exactly two commas and none of
/// these characters.
pub proof fn lemma_row_shape(fingerprint: Seq<char>, host: Seq<char>, port: u16)
    requires
        is_field_text(host),
    ensures
        is_row_of(fingerprint, row_text(fingerprint, host, port)),
        is_field_text(fingerprint) ==> comma_count(row_text(fingerprint, host, port)) == 2,
        is_field_text(fingerprint) ==> forall|i: int|
            0 <= i < row_text(fingerprint, host, port).len() ==> (#[trigger] row_text(
                fingerprint,
                host,
                port,
            )[i]) == ',' || is_field_char(row_text(fingerprint, host, port)[i]),
{
    reveal_strlit(",");
    let comma = ","@;
    let number = decimal_text(port as nat);
    let row = row_text(fingerprint, host, port);
    let rest = comma + host + comma + number;
    assert(comma =~= seq![',']);
    lemma_decimal_text_is_digits(port as nat);
    assert(is_field_text(number));
    assert(row =~= fingerprint + rest);
    assert(row.skip(fingerprint.len() as int) =~= rest);
    assert(row.take(fingerprint.len() as int) =~= fingerprint);
    assert(comma_count(comma) == 1) by {
        reveal(Seq::filter);
        assert(comma.drop_last() =~= Seq::<char>::empty());
    }
    lemma_field_text_has_no_comma(host);
    lemma_field_text_has_no_comma(number);
    lemma_comma_count_add(comma, host);
    lemma_comma_count_add(comma + host, comma);
    lemma_comma_count_add(comma + host + comma, number);
    assert(comma_count(rest) == 2);
    assert forall|i: int| fingerprint.len() <= i < row.len() implies (#[trigger] row[i]) == ','
        || is_field_char(row[i]) by {
        let k = i - fingerprint.len();
        assert(row[i] == rest[k]);
        if k == 0 {
        } else if k < 1 + host.len() {
            assert(rest[k] == host[k - 1]);
        } else if k == 1 + host.len() {
        } else {
            assert(rest[k] == number[k - 2 - host.len()]);
        }
    }
    if is_field_text(fingerprint) {
        lemma_field_text_has_no_comma(fingerprint);
        lemma_comma_count_add(fingerprint, rest);
        assert forall|i: int| 0 <= i < row.len() implies (#[trigger] row[i]) == ','
            || is_field_char(row[i]) by {
            if i < fingerprint.len() {
                assert(row[i] == fingerprint[i]);
            }
        }
    }
}

/// Every row of a relay whose hosts can be fields has the shape of a row of
/// that relay.
pub proof fn lemma_node_rows_shape(node: TorNodeView)
    requires
        has_field_hosts(node),
    ensures
        forall|i: int|
            0 <= i < node_rows(node).len() ==> is_row_of(
                node.fingerprint,
                #[trigger] node_rows(node)[i],
            ),
{
    lemma_rows_shape(node.fingerprint, node.or_addresses);
}

/// Every row that addresses with field hosts give has the shape of a row.
proof fn lemma_rows_shape(fingerprint: Seq<char>, addresses: Seq<Option<(Seq<char>, u16)>>)
    requires
        forall|i: int|
            0 <= i < addresses.len() ==> (match #[trigger] addresses[i] {
                Some((host, _)) => is_field_text(host),
                None => true,
            }),
    ensures
        forall|i: int|
            0 <= i < addresses.filter_map(row_of(fingerprint)).len() ==> is_row_of(
                fingerprint,
                #[trigger] addresses.filter_map(row_of(fingerprint))[i],
            ),
    decreases addresses.len(),
{
    let to_row = row_of(fingerprint);
    let rows = addresses.filter_map(to_row);
    if addresses.len() > 0 {
        let front = addresses.drop_last();
        let front_rows = front.filter_map(to_row);
        assert forall|i: int| 0 <= i < front.len() implies (match #[trigger] front[i] {
            Some((host, _)) => is_field_text(host),
            None => true,
        }) by {
            assert(front[i] == addresses[i]);
        }
        lemma_rows_shape(fingerprint, front);
        match addresses.last() {
            Some((host, port)) => {
                assert(addresses[addresses.len() - 1] == Some((host, port)));
                lemma_row_shape(fingerprint, host, port);
                assert(to_row(addresses.last()) == Some(row_text(fingerprint, host, port)));
                assert(rows == front_rows + seq![row_text(fingerprint, host, port)]);
                assert forall|i: int| 0 <= i < rows.len() implies is_row_of(
                    fingerprint,
                    #[trigger] rows[i],
                ) by {
                    if i < front_rows.len() {
                        assert(rows[i] == front_rows[i]);
                    }
                }
            },
            None => {
                assert(to_row(addresses.last()) is None);
                assert(rows == front_rows);
            },
        }
    }
}

/// Whether a text can be a field of a row as it stands.
pub fn field_text(text: &str) -> (r: bool)
    ensures
        r == is_field_text(text@),
{
    let chars = chars_of(text);
    let mut i: usize = 0;
    while i < chars.len()
        invariant
            i <= chars.len(),
            chars@ == text@,
            forall|j: int| 0 <= j < i ==> is_field_char(#[trigger] chars@[j]),
        decreases chars.len() - i,
    {
        let c = chars[i];
        if c == ',' || c == ' ' || c == '[' || c == ']' || c == '\n' || c == '\r' {
            assert(!is_field_char(text@[i as int]));
            return false;
        }
        i += 1;
    }
    true
}

impl TorNode {
    /// Whether the relay carries `flag`, up to the case of ASCII letters.
    pub fn has_flag(&self, flag: &str) -> (found: bool)
        ensures
            found == holds_flag(self@.flags, flag@),
    {
        flags_hold(&self.flags, flag)
    }

    /// The rows of the relay: one for each of its addresses that could be
    /// read, in the order of the addresses.
    pub fn csv_rows(&self) -> (rows: Vec<String>)
        ensures
            texts(rows@) == node_rows(self@),
            has_field_hosts(self@) ==> forall|i: int|
                0 <= i < rows@.len() ==> is_row_of(self@.fingerprint, #[trigger] texts(rows@)[i]),
    {
        let ghost addresses = self@.or_addresses;
        let ghost to_row = row_of(self@.fingerprint);
        let mut rows: Vec<String> = Vec::new();
        let mut i: usize = 0;
        assert(texts(rows@) =~= addresses.take(0).filter_map(to_row));
        while i < self.or_addresses.len()
            invariant
                i <= self.or_addresses.len(),
                addresses == self@.or_addresses,
                to_row == row_of(self@.fingerprint),
                texts(rows@) == addresses.take(i as int).filter_map(to_row),
            decreases self.or_addresses.len() - i,
        {
            proof {
                addresses.lemma_filter_map_take_succ(to_row, i as int);
                assert(addresses[i as int] == address_view(self.or_addresses@[i as int]));
            }
            let ghost before = rows@;
            match &self.or_addresses[i] {
                Some(address) => {
                    let mut row = String::new();
                    row.append(self.fingerprint.as_str());
                    row.append(",");
                    row.append(address.ip.as_str());
                    row.append(",");
                    push_decimal(&mut row, address.port as u128);
                    assert(row@ =~= row_text(self@.fingerprint, address.ip@, address.port));
                    rows.push(row);
                    assert(texts(rows@) =~= texts(before) + seq![row@]);
                },
                None => {},
            }
            i += 1;
        }
        assert(addresses.take(i as int) =~= addresses);
        proof {
            if has_field_hosts(self@) {
                lemma_node_rows_shape(self@);
                assert forall|i: int| 0 <= i < rows@.len() implies is_row_of(
                    self@.fingerprint,
                    #[trigger] texts(rows@)[i],
                ) by {
                    assert(texts(rows@)[i] == node_rows(self@)[i]);
                }
            }
        }
        rows
    }
}

/// The rows of the three tables.
#[derive(Clone, Debug)]
pub struct ExportRows {
    /// The rows of every relay.
    pub all: Vec<String>,
    /// The rows of the relays with the guard marker.
    pub guards: Vec<String>,
    /// The rows of the relays with the exit marker.
    pub exits: Vec<String>,
}

/// The rows that a relay adds to the table of the relays with `flag`: its
/// own rows where it carries the flag, else none. With no flag given, the
/// table is that of all relays.
pub open spec fn rows_for(flag: Option<Seq<char>>) -> spec_fn(TorNodeView) -> Seq<Seq<char>> {
    |node: TorNodeView|
        if flag is None || holds_flag(node.flags, flag.unwrap()) {
            node_rows(node)
        } else {
            Seq::empty()
        }
}

/// The rows of the relays that carry `flag`, relay by relay in the order of
/// the census; with no flag given, the rows of all relays.
pub open spec fn rows_where(nodes: Seq<TorNodeView>, flag: Option<Seq<char>>) -> Seq<Seq<char>> {
    nodes.map_values(rows_for(flag)).flatten()
}

/// Appends the rows of a relay to a table where `wanted` is set.
fn extend_rows(rows: &mut Vec<String>, node_rows: &Vec<String>, wanted: bool)
    ensures
        texts(final(rows)@) == texts(old(rows)@) + (if wanted {
            texts(node_rows@)
        } else {
            Seq::empty()
        }),
{
    if wanted {
        let mut i: usize = 0;
        assert(texts(rows@) =~= texts(old(rows)@) + texts(node_rows@).take(0));
        while i < node_rows.len()
            invariant
                i <= node_rows.len(),
                texts(rows@) == texts(old(rows)@) + texts(node_rows@).take(i as int),
            decreases node_rows.len() - i,
        {
            let ghost before = rows@;
            let row = node_rows[i].clone();
            rows.push(row);
            assert(texts(rows@) =~= texts(before).push(node_rows@[i as int]@));
            assert(texts(rows@) =~= texts(old(rows)@) + texts(node_rows@).take(i + 1));
            i += 1;
        }
        assert(texts(node_rows@).take(i as int) =~= texts(node_rows@));
    } else {
        assert(texts(rows@) =~= texts(old(rows)@) + Seq::<Seq<char>>::empty());
    }
}

/// Sorts the rows of a census into the three tables. A relay with both
/// markers has its rows in all three.
pub fn export_rows(nodes: &Vec<TorNode>) -> (tables: ExportRows)
    ensures
        texts(tables.all@) == rows_where(node_views(nodes@), None),
        texts(tables.guards@) == rows_where(node_views(nodes@), Some(guard_marker())),
        texts(tables.exits@) == rows_where(node_views(nodes@), Some(exit_marker())),
{
    let ghost views = node_views(nodes@);
    let ghost pick_all = rows_for(None);
    let ghost pick_guards = rows_for(Some(guard_marker()));
    let ghost pick_exits = rows_for(Some(exit_marker()));
    let mut all: Vec<String> = Vec::new();
    let mut guards: Vec<String> = Vec::new();
    let mut exits: Vec<String> = Vec::new();
    let mut i: usize = 0;
    proof {
        assert(views.take(0).map_values(pick_all) =~= Seq::<Seq<Seq<char>>>::empty());
        assert(views.take(0).map_values(pick_guards) =~= Seq::<Seq<Seq<char>>>::empty());
        assert(views.take(0).map_values(pick_exits) =~= Seq::<Seq<Seq<char>>>::empty());
        assert(texts(all@) =~= views.take(0).map_values(pick_all).flatten());
        assert(texts(guards@) =~= views.take(0).map_values(pick_guards).flatten());
        assert(texts(exits@) =~= views.take(0).map_values(pick_exits).flatten());
    }
    while i < nodes.len()
        invariant
            i <= nodes.len(),
            views == node_views(nodes@),
            pick_all == rows_for(None),
            pick_guards == rows_for(Some(guard_marker())),
            pick_exits == rows_for(Some(exit_marker())),
            texts(all@) == views.take(i as int).map_values(pick_all).flatten(),
            texts(guards@) == views.take(i as int).map_values(pick_guards).flatten(),
            texts(exits@) == views.take(i as int).map_values(pick_exits).flatten(),
        decreases nodes.len() - i,
    {
        let node = &nodes[i];
        let is_guard = node.has_flag("guard");
        let is_exit = node.has_flag("exit");
        let rows = node.csv_rows();
        proof {
            let v = views[i as int];
            assert(v == nodes@[i as int]@);
            let done = views.take(i as int);
            assert(views.take(i + 1).map_values(pick_all) =~= done.map_values(pick_all).push(
                pick_all(v),
            ));
            assert(views.take(i + 1).map_values(pick_guards) =~= done.map_values(pick_guards).push(
                pick_guards(v),
            ));
            assert(views.take(i + 1).map_values(pick_exits) =~= done.map_values(pick_exits).push(
                pick_exits(v),
            ));
            done.map_values(pick_all).lemma_flatten_push(pick_all(v));
            done.map_values(pick_guards).lemma_flatten_push(pick_guards(v));
            done.map_values(pick_exits).lemma_flatten_push(pick_exits(v));
        }
        extend_rows(&mut all, &rows, true);
        extend_rows(&mut guards, &rows, is_guard);
        extend_rows(&mut exits, &rows, is_exit);
        i += 1;
    }
    assert(views.take(i as int) =~= views);
    ExportRows { all, guards, exits }
}

/// The heading of every table.
pub open spec fn csv_header() -> Seq<char> {
    "fingerprint,ipaddr,port"@
}

/// A table as text: the heading and the rows, one to a line, every line
/// closed by a line feed.
pub open spec fn table_text(rows: Seq<Seq<char>>) -> Seq<char> {
    csv_header() + "\n"@ + rows.map_values(|row: Seq<char>| row + "\n"@).flatten()
}

/// Writes a table as text.
pub fn csv_table(rows: &Vec<String>) -> (table: String)
    ensures
        table@ == table_text(texts(rows@)),
{
    let ghost line = |row: Seq<char>| row + "\n"@;
    let mut table = String::new();
    table.append("fingerprint,ipaddr,port");
    table.append("\n");
    let ghost opened = table@;
    let mut i: usize = 0;
    assert(texts(rows@).take(0).map_values(line) =~= Seq::<Seq<char>>::empty());
    assert(table@ =~= opened + texts(rows@).take(0).map_values(line).flatten());
    while i < rows.len()
        invariant
            i <= rows.len(),
            line == |row: Seq<char>| row + "\n"@,
            table@ == opened + texts(rows@).take(i as int).map_values(line).flatten(),
        decreases rows.len() - i,
    {
        let ghost before = table@;
        proof {
            let done = texts(rows@).take(i as int).map_values(line);
            assert(texts(rows@).take(i + 1).map_values(line) =~= done.push(line(rows@[i as int]@)));
            done.lemma_flatten_push(line(rows@[i as int]@));
        }
        table.append(rows[i].as_str());
        table.append("\n");
        assert(table@ =~= before + line(rows@[i as int]@));
        assert(table@ =~= opened + texts(rows@).take(i + 1).map_values(line).flatten());
        i += 1;
    }
    assert(texts(rows@).take(i as int) =~= texts(rows@));
    assert(table@ =~= table_text(texts(rows@)));
    table
}

} // verus!
