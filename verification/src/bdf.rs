//! PCI addresses: `domain:bus:device.function`.

use vstd::prelude::*;
use vstd::slice::slice_subrange;

use crate::number::{digits, hex, is_number_char, parse_unsigned, push_hex, read_unsigned};
use crate::number::{digit_char, power, zeros};
use crate::number::{
    a_hex_number_is_what_it_says, a_padded_number_has_its_width, a_padded_number_is_something,
    digit_of, lemma_numeral_chars, what_is_no_number_is_refused, NumberFault,
};
use crate::number::{
    hex_reads_back, lemma_digits_are_digits, lemma_powers_of_sixteen, lemma_read_digits_append,
};
use crate::sort::text_before;
use crate::text::{chars, fields, find_first, first_at, remove_all, removed, split, views};
use crate::text::{fields_keep_the_other_characters, the_first_place_is_the_first};
use crate::text::{
    lemma_fields_around, lemma_first_at, lemma_nothing_removed, lemma_one_field,
    lemma_removed_append,
};

verus! {

/// The PCI domain sysfs always spells out, and callers often omit.
pub const PCI_DEV_DOMAIN: &'static str = "0000";

/// Where a PCI function sits.
#[derive(Clone, Copy, Debug, PartialEq, Eq, Structural)]
pub struct Address {
    pub domain: u16,
    pub bus: u8,
    pub device: u8,
    pub function: u8,
}

/// The address that three fields of an address spell, the last of them holding
/// device and function.
pub open spec fn read_parts(domain: Seq<char>, bus: Seq<char>, slot: Seq<char>) -> Option<Address> {
    let dot = first_at(slot, '.');
    if dot == slot.len() {
        None
    } else {
        match (
            read_unsigned(domain, 16, 0xffff),
            read_unsigned(bus, 16, 0xff),
            read_unsigned(slot.take(dot), 16, 0xff),
            read_unsigned(slot.skip(dot + 1), 16, 0xff),
        ) {
            (Ok(domain), Ok(bus), Ok(device), Ok(function)) => Some(
                Address {
                    domain: domain as u16,
                    bus: bus as u8,
                    device: device as u8,
                    function: function as u8,
                },
            ),
            _ => None,
        }
    }
}

/// The address that `s` spells, with or without a domain.
pub open spec fn read_address(s: Seq<char>) -> Option<Address> {
    let parts = fields(s, ':');
    if parts.len() == 2 {
        read_parts(PCI_DEV_DOMAIN@, parts[0], parts[1])
    } else if parts.len() == 3 {
        read_parts(parts[0], parts[1], parts[2])
    } else {
        None
    }
}

/// The one spelling sysfs answers to.
pub open spec fn address_text(a: Address) -> Seq<char> {
    hex(a.domain as int, 4) + seq![':'] + hex(a.bus as int, 2) + seq![':'] + hex(a.device as int, 2)
        + seq!['.'] + hex(a.function as int, 1)
}

/// The canonical spelling of the address that `s` spells.
pub open spec fn canonical(s: Seq<char>) -> Option<Seq<char>> {
    match read_address(s) {
        Some(a) => Some(address_text(a)),
        None => None,
    }
}

fn parse_parts(domain: &[char], bus: &[char], slot: &[char]) -> (r: Option<Address>)
    ensures
        r == read_parts(domain@, bus@, slot@),
{
    let dot: usize = find_first(slot, '.');
    if dot == slot.len() {
        return None;
    }
    let device: &[char] = slice_subrange(slot, 0, dot);
    let function: &[char] = slice_subrange(slot, dot + 1, slot.len());
    assert(device@ == slot@.take(dot as int));
    assert(function@ == slot@.skip(dot + 1));
    match (
        parse_unsigned(domain, 16, 0xffff),
        parse_unsigned(bus, 16, 0xff),
        parse_unsigned(device, 16, 0xff),
        parse_unsigned(function, 16, 0xff),
    ) {
        (Ok(domain), Ok(bus), Ok(device), Ok(function)) => Some(
            Address {
                domain: domain as u16,
                bus: bus as u8,
                device: device as u8,
                function: function as u8,
            },
        ),
        _ => None,
    }
}

impl Address {
    pub fn parse(bdf: &str) -> (r: Option<Address>)
        ensures
            r == read_address(bdf@),
    {
        let parts: Vec<Vec<char>> = split(&chars(bdf), ':');
        assert(views(parts@).len() == parts.len());
        if parts.len() == 2 {
            assert(views(parts@)[0] == parts@[0]@ && views(parts@)[1] == parts@[1]@);
            parse_parts(&chars(PCI_DEV_DOMAIN), &parts[0], &parts[1])
        } else if parts.len() == 3 {
            assert(views(parts@)[0] == parts@[0]@ && views(parts@)[1] == parts@[1]@ && views(
                parts@,
            )[2] == parts@[2]@);
            parse_parts(&parts[0], &parts[1], &parts[2])
        } else {
            None
        }
    }

    pub fn spell(&self) -> (r: String)
        ensures
            r@ == address_text(*self),
    {
        let mut r: String = String::new();
        push_hex(&mut r, self.domain as u64, 4);
        r.push(':');
        push_hex(&mut r, self.bus as u64, 2);
        r.push(':');
        push_hex(&mut r, self.device as u64, 2);
        r.push('.');
        push_hex(&mut r, self.function as u64, 1);
        assert(r@ =~= address_text(*self));
        r
    }
}

/// `65:00.0` and `0000:65:00.0` name the same device; sysfs only answers to
/// the second.
///
/// Rebuilt from the parsed numbers rather than patched up, because the result
/// is joined onto a sysfs root: none of the caller's string may reach a path.
pub fn normalize_bdf(bdf: &str) -> (r: Option<String>)
    ensures
        match r {
            Some(s) => canonical(bdf@) == Some(s@),
            None => canonical(bdf@) is None,
        },
{
    match Address::parse(bdf) {
        Some(a) => Some(a.spell()),
        None => None,
    }
}

// --- What holds of every address ---------------------------------------------

/// A character that an address is written with.
pub open spec fn is_address_char(c: char) -> bool {
    is_number_char(c) || c == ':' || c == '.'
}

proof fn lemma_hex_chars(value: nat, width: int)
    ensures
        hex(value as int, width).len() >= 1,
        forall|i: int|
            0 <= i < hex(value as int, width).len() ==> is_number_char(
                #[trigger] hex(value as int, width)[i],
            ),
        !hex(value as int, width).contains(':'),
        !hex(value as int, width).contains('.'),
{
    lemma_digits_are_digits(value, 16);
    let s = hex(value as int, width);
    let d = digits(value, 16, false);
    assert forall|i: int| 0 <= i < s.len() implies is_number_char(#[trigger] s[i]) by {
        let n = s.len() - d.len();
        if i >= n {
            assert(s[i] == d[i - n]);
        }
    }
}

proof fn lemma_byte_width(value: nat)
    requires
        value <= 0xff,
    ensures
        value <= 0xf ==> digits(value, 16, false).len() == 1,
        value > 0xf ==> digits(value, 16, false).len() == 2,
{
    reveal_with_fuel(digits, 2);
}

proof fn lemma_domain_width(value: nat)
    requires
        value <= 0xffff,
    ensures
        digits(value, 16, false).len() <= 4,
{
    reveal_with_fuel(digits, 4);
}

/// An address read from its own spelling is that address.
pub proof fn address_reads_back(a: Address)
    ensures
        read_address(address_text(a)) == Some(a),
{
    let domain = hex(a.domain as int, 4);
    let bus = hex(a.bus as int, 2);
    let device = hex(a.device as int, 2);
    let function = hex(a.function as int, 1);
    let slot = device + seq!['.'] + function;
    let s = address_text(a);
    lemma_hex_chars(a.domain as nat, 4);
    lemma_hex_chars(a.bus as nat, 2);
    lemma_hex_chars(a.device as nat, 2);
    lemma_hex_chars(a.function as nat, 1);
    assert(s =~= domain + seq![':'] + (bus + seq![':'] + slot));
    lemma_fields_around(domain, bus + seq![':'] + slot, ':');
    lemma_fields_around(bus, slot, ':');
    lemma_one_field(domain, ':');
    lemma_one_field(bus, ':');
    assert(!slot.contains(':')) by {
        assert forall|i: int| 0 <= i < slot.len() implies slot[i] != ':' by {
            if i < device.len() {
                assert(slot[i] == device[i]);
            } else if i > device.len() {
                assert(slot[i] == function[i - device.len() - 1]);
            }
        }
    }
    lemma_one_field(slot, ':');
    assert(fields(s, ':') =~= seq![domain, bus, slot]);
    assert forall|i: int| 0 <= i < device.len() implies slot[i] != '.' by {
        assert(slot[i] == device[i]);
    }
    lemma_first_at(slot, '.', device.len() as int);
    assert(slot.take(device.len() as int) =~= device);
    assert(slot.skip(device.len() as int + 1) =~= function);
    hex_reads_back(a.domain as nat, 4, 0xffff);
    hex_reads_back(a.bus as nat, 2, 0xff);
    hex_reads_back(a.device as nat, 2, 0xff);
    hex_reads_back(a.function as nat, 1, 0xff);
}

/// A canonical spelling is its own canonical spelling.
pub proof fn canonical_is_canonical(s: Seq<char>)
    ensures
        canonical(s) matches Some(t) ==> canonical(t) == Some(t),
{
    if let Some(a) = read_address(s) {
        address_reads_back(a);
    }
}

/// Whatever was asked for, what becomes a path is made of hexadecimal digits,
/// colons and a dot: no separator, and neither empty nor a dot of its own. It
/// is as long as `0000:00:00.0`, or one longer where the function takes two
/// digits.
pub proof fn canonical_is_one_plain_component(s: Seq<char>)
    ensures
        canonical(s) matches Some(t) ==> {
            &&& forall|i: int| 0 <= i < t.len() ==> is_address_char(#[trigger] t[i])
            &&& !t.contains('/')
            &&& 12 <= t.len() <= 13
            &&& t.len() == 12 <==> read_address(s)->0.function <= 0xf
        },
{
    if let Some(a) = read_address(s) {
        let t = address_text(a);
        let domain = hex(a.domain as int, 4);
        let bus = hex(a.bus as int, 2);
        let device = hex(a.device as int, 2);
        let function = hex(a.function as int, 1);
        lemma_hex_chars(a.domain as nat, 4);
        lemma_hex_chars(a.bus as nat, 2);
        lemma_hex_chars(a.device as nat, 2);
        lemma_hex_chars(a.function as nat, 1);
        lemma_domain_width(a.domain as nat);
        lemma_byte_width(a.bus as nat);
        lemma_byte_width(a.device as nat);
        lemma_byte_width(a.function as nat);
        assert(domain.len() == 4 && bus.len() == 2 && device.len() == 2);
        assert forall|i: int| 0 <= i < t.len() implies is_address_char(#[trigger] t[i]) by {
            if i < 4 {
                assert(t[i] == domain[i]);
            } else if 5 <= i < 7 {
                assert(t[i] == bus[i - 5]);
            } else if 8 <= i < 10 {
                assert(t[i] == device[i - 8]);
            } else if i > 10 {
                assert(t[i] == function[i - 11]);
            }
        }
    }
}

/// An address without a domain names what it names in domain `0000`.
pub proof fn omitted_domain_is_domain_zero(s: Seq<char>)
    requires
        fields(s, ':').len() == 2,
    ensures
        canonical(PCI_DEV_DOMAIN@ + seq![':'] + s) == canonical(s),
{
    reveal_strlit("0000");
    lemma_fields_around(PCI_DEV_DOMAIN@, s, ':');
    assert(!PCI_DEV_DOMAIN@.contains(':'));
    lemma_one_field(PCI_DEV_DOMAIN@, ':');
}

/// Two spellings name the same function exactly when they come out the same.
pub proof fn canonical_tells_addresses_apart(s: Seq<char>, t: Seq<char>)
    requires
        read_address(s) is Some,
        read_address(t) is Some,
    ensures
        canonical(s) == canonical(t) <==> read_address(s) == read_address(t),
{
    address_reads_back(read_address(s)->0);
    address_reads_back(read_address(t)->0);
}

// --- Bus order ---------------------------------------------------------------

/// The number that an address comes to without its punctuation, by which
/// devices are sorted; 0 where it is none.
pub open spec fn address_id(address: Seq<char>) -> u64 {
    match read_unsigned(removed(removed(address, ':'), '.'), 16, u64::MAX as int) {
        Ok(id) => id as u64,
        Err(_) => 0,
    }
}

pub fn address_to_id(address: &str) -> (r: u64)
    ensures
        r == address_id(address@),
{
    let cleaned: Vec<char> = remove_all(&remove_all(&chars(address), ':'), '.');
    match parse_unsigned(&cleaned, 16, 0xffff_ffff_ffff_ffff) {
        Ok(id) => id,
        Err(_) => 0,
    }
}

proof fn lemma_address_chars(value: nat, width: int, c: char)
    requires
        c == ':' || c == '.',
    ensures
        removed(hex(value as int, width), c) == hex(value as int, width),
{
    lemma_hex_chars(value, width);
    lemma_nothing_removed(hex(value as int, width), c);
}

/// The number that an address comes to is its place on the bus: domain, bus,
/// device and function, most significant first, as long as a function takes
/// one digit.
pub proof fn an_id_is_a_place_on_the_bus(a: Address)
    requires
        a.function < 16,
    ensures
        address_id(address_text(a)) == a.domain * 0x10_0000 + a.bus * 0x1000 + a.device * 0x10
            + a.function,
{
    let domain = hex(a.domain as int, 4);
    let bus = hex(a.bus as int, 2);
    let device = hex(a.device as int, 2);
    let function = hex(a.function as int, 1);
    let all = domain + bus + device + function;
    let max = u64::MAX as int;
    assert(removed(removed(address_text(a), ':'), '.') == all) by {
        lemma_address_chars(a.domain as nat, 4, ':');
        lemma_address_chars(a.domain as nat, 4, '.');
        lemma_address_chars(a.bus as nat, 2, ':');
        lemma_address_chars(a.bus as nat, 2, '.');
        lemma_address_chars(a.device as nat, 2, ':');
        lemma_address_chars(a.device as nat, 2, '.');
        lemma_address_chars(a.function as nat, 1, ':');
        lemma_address_chars(a.function as nat, 1, '.');
        reveal_with_fuel(removed, 2);
        let colon = seq![':'];
        let dot = seq!['.'];
        assert(removed(colon, ':') =~= seq![]);
        assert(removed(dot, ':') =~= dot);
        assert(removed(dot, '.') =~= seq![]);
        lemma_removed_append(domain, colon, ':');
        lemma_removed_append(domain + colon, bus, ':');
        lemma_removed_append(domain + colon + bus, colon, ':');
        lemma_removed_append(domain + colon + bus + colon, device, ':');
        lemma_removed_append(domain + colon + bus + colon + device, dot, ':');
        lemma_removed_append(domain + colon + bus + colon + device + dot, function, ':');
        let bare = domain + bus + device + dot + function;
        assert(removed(address_text(a), ':') =~= bare);
        lemma_removed_append(domain, bus, '.');
        lemma_removed_append(domain + bus, device, '.');
        lemma_removed_append(domain + bus + device, dot, '.');
        lemma_removed_append(domain + bus + device + dot, function, '.');
        assert(removed(bare, '.') =~= all);
    }
    hex_reads_back(a.domain as nat, 4, max);
    hex_reads_back(a.bus as nat, 2, max);
    hex_reads_back(a.device as nat, 2, max);
    hex_reads_back(a.function as nat, 1, max);
    lemma_hex_chars(a.domain as nat, 4);
    lemma_hex_chars(a.bus as nat, 2);
    lemma_hex_chars(a.device as nat, 2);
    lemma_hex_chars(a.function as nat, 1);
    lemma_byte_width(a.bus as nat);
    lemma_byte_width(a.device as nat);
    assert(function =~= digits(a.function as nat, 16, false));
    assert(bus.len() == 2 && device.len() == 2 && function.len() == 1);
    lemma_powers_of_sixteen();
    assert(domain[0] != '+' && bus[0] != '+' && device[0] != '+' && function[0] != '+');
    lemma_read_digits_append(domain, bus, 16, max, a.domain as nat);
    let two = (a.domain * 256 + a.bus) as nat;
    lemma_read_digits_append(domain + bus, device, 16, max, two);
    let three = (two * 256 + a.device) as nat;
    lemma_read_digits_append(domain + bus + device, function, 16, max, three);
    assert(all[0] == domain[0]);
}

/// Whether a function comes before another on the bus: by domain, bus, device
/// and function.
pub open spec fn comes_before(a: Address, b: Address) -> bool {
    if a.domain != b.domain {
        a.domain < b.domain
    } else if a.bus != b.bus {
        a.bus < b.bus
    } else if a.device != b.device {
        a.device < b.device
    } else {
        a.function < b.function
    }
}

/// The numbers that devices are sorted by rank them in bus order, as long as a
/// function takes one digit.
pub proof fn ids_rank_in_bus_order(a: Address, b: Address)
    requires
        a.function < 16,
        b.function < 16,
    ensures
        address_id(address_text(a)) < address_id(address_text(b)) <==> comes_before(a, b),
{
    an_id_is_a_place_on_the_bus(a);
    an_id_is_a_place_on_the_bus(b);
}

proof fn lemma_hex_last(value: nat, width: int)
    requires
        width >= 2,
    ensures
        hex(value as int, width) == hex((value / 16) as int, width - 1).push(
            digit_char((value % 16) as int, false),
        ),
{
    if value < 16 {
        assert(zeros(width - 1) =~= zeros(width - 2) + seq!['0']);
        assert(hex(value as int, width) =~= zeros(width - 1) + seq![
            digit_char(value as int, false),
        ]);
        assert(hex(0, width - 1) =~= zeros(width - 2) + seq!['0']);
    } else {
        assert(hex(value as int, width) =~= hex((value / 16) as int, width - 1).push(
            digit_char((value % 16) as int, false),
        ));
    }
}

/// Numbers of one width are in the order of their texts.
proof fn lemma_hex_order(x: nat, y: nat, width: nat, s: Seq<char>, t: Seq<char>)
    requires
        width >= 1,
        x < power(16, width),
        y < power(16, width),
    ensures
        text_before(hex(x as int, width as int) + s, hex(y as int, width as int) + t) <==> x < y
            || (x == y && text_before(s, t)),
    decreases width,
{
    let dx = digit_char((x % 16) as int, false);
    let dy = digit_char((y % 16) as int, false);
    let s1 = seq![dx] + s;
    let t1 = seq![dy] + t;
    assert(s1.drop_first() =~= s);
    assert(t1.drop_first() =~= t);
    if width == 1 {
        assert(power(16, 1) == 16 * power(16, 0));
        assert(hex(x as int, 1) + s =~= s1);
        assert(hex(y as int, 1) + t =~= t1);
    } else {
        let less = (width - 1) as nat;
        assert(power(16, width) == 16 * power(16, less));
        lemma_hex_last(x, width as int);
        lemma_hex_last(y, width as int);
        lemma_hex_order(x / 16, y / 16, less, s1, t1);
        assert(hex(x as int, width as int) + s =~= hex((x / 16) as int, less as int) + s1);
        assert(hex(y as int, width as int) + t =~= hex((y / 16) as int, less as int) + t1);
    }
}

/// Addresses that are sorted as texts come in bus order too, as long as a
/// function takes one digit.
pub proof fn spellings_rank_in_bus_order(a: Address, b: Address)
    requires
        a.function < 16,
        b.function < 16,
    ensures
        text_before(address_text(a), address_text(b)) <==> comes_before(a, b),
{
    let fa = hex(a.function as int, 1) + seq![];
    let fb = hex(b.function as int, 1) + seq![];
    let da = seq!['.'] + fa;
    let db = seq!['.'] + fb;
    let ba = seq![':'] + (hex(a.device as int, 2) + da);
    let bb = seq![':'] + (hex(b.device as int, 2) + db);
    let ma = seq![':'] + (hex(a.bus as int, 2) + ba);
    let mb = seq![':'] + (hex(b.bus as int, 2) + bb);
    lemma_powers_of_sixteen();
    assert(power(16, 4) == 16 * power(16, 3));
    assert(address_text(a) =~= hex(a.domain as int, 4) + ma);
    assert(address_text(b) =~= hex(b.domain as int, 4) + mb);
    lemma_hex_order(a.domain as nat, b.domain as nat, 4, ma, mb);
    lemma_hex_order(a.bus as nat, b.bus as nat, 2, ba, bb);
    lemma_hex_order(a.device as nat, b.device as nat, 2, da, db);
    lemma_hex_order(a.function as nat, b.function as nat, 1, seq![], seq![]);
    assert(ma.drop_first() =~= hex(a.bus as int, 2) + ba);
    assert(mb.drop_first() =~= hex(b.bus as int, 2) + bb);
    assert(ba.drop_first() =~= hex(a.device as int, 2) + da);
    assert(bb.drop_first() =~= hex(b.device as int, 2) + db);
    assert(da.drop_first() =~= fa);
    assert(db.drop_first() =~= fb);
}

// --- How addresses are spelled -----------------------------------------------

/// The address that four numbers make, if they fit.
pub open spec fn address_of(
    domain: Result<int, NumberFault>,
    bus: Result<int, NumberFault>,
    device: Result<int, NumberFault>,
    function: Result<int, NumberFault>,
) -> Option<Address> {
    if domain is Ok && bus is Ok && device is Ok && function is Ok {
        Some(
            Address {
                domain: domain->Ok_0 as u16,
                bus: bus->Ok_0 as u8,
                device: device->Ok_0 as u8,
                function: function->Ok_0 as u8,
            },
        )
    } else {
        None
    }
}

/// An address is four hexadecimal numbers, however they are written: the domain,
/// the bus and the device with a colon between them, and the function after a
/// dot. The domain and its colon may be left out, and are then 0; a number that
/// does not fit, or is none, makes no address.
pub proof fn an_address_is_four_numbers(
    domain: Seq<char>,
    bus: Seq<char>,
    device: Seq<char>,
    function: Seq<char>,
)
    requires
        !domain.contains(':'),
        !bus.contains(':'),
        !device.contains(':'),
        !function.contains(':'),
        !device.contains('.'),
    ensures
        read_address(
            domain + seq![':'] + (bus + seq![':'] + (device + seq!['.'] + function)),
        ) == address_of(
            read_unsigned(domain, 16, 0xffff),
            read_unsigned(bus, 16, 0xff),
            read_unsigned(device, 16, 0xff),
            read_unsigned(function, 16, 0xff),
        ),
        read_address(bus + seq![':'] + (device + seq!['.'] + function)) == address_of(
            Ok(0),
            read_unsigned(bus, 16, 0xff),
            read_unsigned(device, 16, 0xff),
            read_unsigned(function, 16, 0xff),
        ),
        read_address(bus + seq![':'] + device) is None,
        read_address(device + seq!['.'] + function) is None,
{
    let slot = device + seq!['.'] + function;
    let two = bus + seq![':'] + slot;
    let three = domain + seq![':'] + two;
    assert(!slot.contains(':')) by {
        assert forall|i: int| 0 <= i < slot.len() implies slot[i] != ':' by {
            if i < device.len() {
                assert(slot[i] == device[i]);
            } else if i > device.len() {
                assert(slot[i] == function[i - device.len() - 1]);
            }
        }
    }
    lemma_fields_around(domain, two, ':');
    lemma_fields_around(bus, slot, ':');
    lemma_fields_around(bus, device, ':');
    lemma_one_field(domain, ':');
    lemma_one_field(bus, ':');
    lemma_one_field(slot, ':');
    lemma_one_field(device, ':');
    assert(fields(three, ':') =~= seq![domain, bus, slot]);
    assert(fields(two, ':') =~= seq![bus, slot]);
    assert(fields(bus + seq![':'] + device, ':') =~= seq![bus, device]);
    assert(fields(slot, ':') =~= seq![slot]);
    assert forall|i: int| 0 <= i < device.len() implies slot[i] != '.' by {
        assert(slot[i] == device[i]);
    }
    lemma_first_at(slot, '.', device.len() as int);
    assert(slot.take(device.len() as int) =~= device);
    assert(slot.skip(device.len() as int + 1) =~= function);
    the_first_place_is_the_first(device, '.');
    reveal_strlit("0000");
    a_hex_number_is_what_it_says(0, 4, 0xffff);
    assert(PCI_DEV_DOMAIN@ =~= hex(0, 4)) by {
        assert(digits(0, 16, false) =~= seq!['0']);
    }
}

/// Nothing is an address that has a character in it which is neither a
/// hexadecimal digit nor one of the three signs that stand between or before
/// numbers.
pub proof fn an_address_has_nothing_else_in_it(s: Seq<char>, c: char)
    requires
        s.contains(c),
        digit_of(c, 16) is None,
        c != ':' && c != '.' && c != '+',
    ensures
        canonical(s) is None,
{
    let parts = fields(s, ':');
    fields_keep_the_other_characters(s, ':', c);
    let i = choose|i: int| 0 <= i < parts.len() && (#[trigger] parts[i]).contains(c);
    if read_address(s) is Some {
        let n = parts.len() - 1;
        let slot = parts[n];
        let dot = first_at(slot, '.');
        the_first_place_is_the_first(slot, '.');
        let k = choose|k: int| 0 <= k < parts[i].len() && parts[i][k] == c;
        if i < n {
            lemma_no_foreign_digit(parts[i], k, if n == 2 && i == 0 {
                0xffff
            } else {
                0xff
            });
        } else if k < dot {
            assert(slot.take(dot)[k] == c);
            lemma_no_foreign_digit(slot.take(dot), k, 0xff);
        } else {
            assert(slot.skip(dot + 1)[k - dot - 1] == c);
            lemma_no_foreign_digit(slot.skip(dot + 1), k - dot - 1, 0xff);
        }
    }
}

proof fn lemma_no_foreign_digit(s: Seq<char>, i: int, max: int)
    requires
        0 <= i < s.len(),
        digit_of(s[i], 16) is None,
        s[i] != '+',
    ensures
        read_unsigned(s, 16, max) is Err,
{
    what_is_no_number_is_refused(s, 16, max, i);
}

/// The one spelling has the domain in four digits, bus and device in two each,
/// and the function after them.
pub proof fn an_address_is_spelled_so(a: Address)
    ensures
        ({
            let t = address_text(a);
            &&& t.len() >= 12
            &&& a.function < 16 ==> t.len() == 12
            &&& t[4] == ':' && t[7] == ':' && t[10] == '.'
            &&& read_unsigned(t.subrange(0, 4), 16, 0xffff) == Ok::<int, NumberFault>(
                a.domain as int,
            )
            &&& read_unsigned(t.subrange(5, 7), 16, 0xff) == Ok::<int, NumberFault>(a.bus as int)
            &&& read_unsigned(t.subrange(8, 10), 16, 0xff) == Ok::<int, NumberFault>(
                a.device as int,
            )
            &&& read_unsigned(t.skip(11), 16, 0xff) == Ok::<int, NumberFault>(a.function as int)
            &&& forall|i: int| 0 <= i < t.len() ==> !('A' <= #[trigger] t[i] && t[i] <= 'F')
        }),
{
    let (domain, bus) = (hex(a.domain as int, 4), hex(a.bus as int, 2));
    let (device, function) = (hex(a.device as int, 2), hex(a.function as int, 1));
    let t = address_text(a);
    assert(power(16, 1) == 16 && power(16, 2) == 0x100 && power(16, 4) == 0x1_0000) by {
        reveal_with_fuel(power, 5);
    }
    a_padded_number_has_its_width(a.domain as nat, 4);
    a_padded_number_has_its_width(a.bus as nat, 2);
    a_padded_number_has_its_width(a.device as nat, 2);
    if a.function < 16 {
        a_padded_number_has_its_width(a.function as nat, 1);
    }
    a_padded_number_is_something(a.function as nat, 1);
    assert(t.subrange(0, 4) =~= domain);
    assert(t.subrange(5, 7) =~= bus);
    assert(t.subrange(8, 10) =~= device);
    assert(t.skip(11) =~= function);
    a_hex_number_is_what_it_says(a.domain as nat, 4, 0xffff);
    a_hex_number_is_what_it_says(a.bus as nat, 2, 0xff);
    a_hex_number_is_what_it_says(a.device as nat, 2, 0xff);
    a_hex_number_is_what_it_says(a.function as nat, 1, 0xff);
    lemma_numeral_chars(a.domain as nat, 4, 16, false);
    lemma_numeral_chars(a.bus as nat, 2, 16, false);
    lemma_numeral_chars(a.device as nat, 2, 16, false);
    lemma_numeral_chars(a.function as nat, 1, 16, false);
    assert forall|i: int| 0 <= i < t.len() implies !('A' <= #[trigger] t[i] && t[i] <= 'F') by {
        if i < 4 {
            let c = domain[i] as int;
            assert(48 <= c <= 57 || 97 <= c <= 102);
        } else if 4 < i < 7 {
            let c = bus[i - 5] as int;
            assert(48 <= c <= 57 || 97 <= c <= 102);
        } else if 7 < i < 10 {
            let c = device[i - 8] as int;
            assert(48 <= c <= 57 || 97 <= c <= 102);
        } else if i > 10 {
            let c = function[i - 11] as int;
            assert(48 <= c <= 57 || 97 <= c <= 102);
        }
    }
}

} // verus!
