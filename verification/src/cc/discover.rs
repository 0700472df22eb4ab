//! Finding the devices whose modes can be set, without opening them.

use vstd::prelude::*;

use crate::attr::{a_printed_number_is_read, attr_number, parse_attr};
use crate::bdf::{canonical, normalize_bdf};
use crate::cc::chip::{chip_for, known_chip};
use crate::cc::error::{CcError, CcFault};
use crate::inquiry::{answered, requests, Inquiry, Survey};
use crate::kernel::{
    read_in, told_names, told_text, Op, Procedure, Reply, Request, Step, Told, Tree,
};
use crate::listing::{
    a_listing_is_read_up_to_its_first_fault, all_names, copy_error, every_name, readable,
    readable_keeps_everything_read,
};
use crate::number::hex;
use crate::path::{join, joined_path};
use crate::sort::{
    sort_texts, sorted_texts, sorted_texts_are_all_there, text_before, text_order,
};
use crate::sysfs::{devices_dir, Sysfs};
use crate::text::texts;

verus! {

/// The vendor id of NVIDIA.
pub const NVIDIA: u16 = 0x10de;

/// Base class and subclass of a bridge of no other kind.
pub const PCI_CLASS_BRIDGE_OTHER: u32 = 0x0680;

/// What is looked for.
#[derive(Clone, Copy, Debug, PartialEq, Eq, Structural)]
pub enum Wanted {
    /// CC-capable GPUs, known by their device id.
    Gpus,
    /// NVSwitches, known by their class.
    Switches,
}

impl Wanted {
    /// The attribute it is known by, beside the vendor.
    pub open spec fn attribute(self) -> Seq<char> {
        match self {
            Wanted::Gpus => "device"@,
            Wanted::Switches => "class"@,
        }
    }

    pub open spec fn is(self, vendor: u32, id: u32) -> bool {
        vendor == NVIDIA && match self {
            Wanted::Gpus => known_chip(id as u16) is Some,
            Wanted::Switches => id >> 8 == PCI_CLASS_BRIDGE_OTHER,
        }
    }

    fn attribute_name(self) -> (r: &'static str)
        ensures
            r@ == self.attribute(),
    {
        match self {
            Wanted::Gpus => "device",
            Wanted::Switches => "class",
        }
    }

    fn check(self, vendor: u32, id: u32) -> (r: bool)
        ensures
            r == self.is(vendor, id),
    {
        vendor == NVIDIA as u32 && match self {
            Wanted::Gpus => chip_for(#[verifier::truncate] (id as u16)).is_some(),
            Wanted::Switches => id >> 8 == PCI_CLASS_BRIDGE_OTHER,
        }
    }
}

/// The number in an attribute, and 0 where there is none.
pub open spec fn number_or_zero(content: Result<Seq<char>, Told>) -> u32 {
    match content {
        Ok(content) => match attr_number(content, u32::MAX as int) {
            Ok(value) => value as u32,
            Err(_) => 0,
        },
        Err(_) => 0,
    }
}

fn hex_or_zero(reply: &Reply) -> (r: u32)
    requires
        reply is Text,
    ensures
        r == number_or_zero(told_text(reply->Text_0)),
{
    match reply {
        Reply::Text(Ok(content)) => match parse_attr(content, 0xffff_ffff) {
            Ok(value) => value as u32,
            Err(_) => 0,
        },
        _ => 0,
    }
}

/// The addresses among some names.
pub open spec fn addresses(names: Seq<Seq<char>>) -> Seq<Seq<char>>
    decreases names.len(),
{
    if names.len() == 0 {
        seq![]
    } else {
        let before = addresses(names.drop_last());
        match canonical(names.last()) {
            Some(bdf) => before.push(bdf),
            None => before,
        }
    }
}

pub fn find_addresses(names: &Vec<String>) -> (r: Vec<String>)
    ensures
        texts(r@) == addresses(texts(names@)),
{
    let ghost all = texts(names@);
    let mut r: Vec<String> = Vec::new();
    let mut i: usize = 0;
    assert(texts(r@) =~= seq![]);
    while i < names.len()
        invariant
            i <= names.len(),
            all == texts(names@),
            texts(r@) == addresses(all.take(i as int)),
        decreases names.len() - i,
    {
        proof {
            assert(all.take(i + 1).drop_last() =~= all.take(i as int));
            assert(all.take(i + 1).last() == names@[i as int]@);
        }
        let ghost before = r@;
        if let Some(bdf) = normalize_bdf(&names[i]) {
            let ghost text = bdf@;
            r.push(bdf);
            assert(texts(r@) =~= texts(before).push(text));
        }
        i = i + 1;
    }
    assert(all.take(i as int) =~= all);
    r
}

// --- Listing -----------------------------------------------------------------

/// What the bus lists.
#[derive(Debug)]
pub struct ListBus {
    devices: String,
    wanted: Wanted,
}

impl ListBus {
    pub closed spec fn devices(&self) -> Seq<char> {
        self.devices@
    }

    pub closed spec fn wanted(&self) -> Wanted {
        self.wanted
    }
}

/// What a search comes to.
pub open spec fn search_end(r: Result<Vec<String>, CcError>) -> Result<Seq<Seq<char>>, CcFault> {
    match r {
        Ok(bdfs) => Ok(texts(bdfs@)),
        Err(err) => Err(err@),
    }
}

impl Inquiry for ListBus {
    type Output = Step<ReadIds, Result<Vec<String>, CcError>>;

    open spec fn asks(&self) -> Seq<Request> {
        seq![Request::ListDir(self.devices())]
    }

    open spec fn concludes(&self, replies: Seq<Reply>, output: Self::Output) -> bool {
        match told_names(replies[0]->Names_0) {
            Err(err) => output matches Step::Done(r) && search_end(r) == Err::<
                Seq<Seq<char>>,
                CcFault,
            >(CcFault::PciTree(err)),
            Ok(entries) => match all_names(entries) {
                Err(err) => output matches Step::Done(r) && search_end(r) == Err::<
                    Seq<Seq<char>>,
                    CcFault,
                >(CcFault::Io(err)),
                Ok(names) => output matches Step::Next(ids) && ids.devices() == self.devices()
                    && ids.wanted() == self.wanted() && ids.bdfs() == addresses(names),
            },
        }
    }

    proof fn asks_questions(&self) {
    }

    fn questions(&self) -> (ops: Vec<Op>) {
        let mut ops: Vec<Op> = Vec::new();
        ops.push(Op::ListDir(self.devices.clone()));
        assert(requests(ops@) =~= self.asks());
        ops
    }

    fn conclude(self, replies: Vec<Reply>) -> (output: Self::Output) {
        assert(replies@[0].answers(self.asks()[0]));
        match &replies[0] {
            Reply::Names(Ok(entries)) => match every_name(entries) {
                Ok(names) => Step::Next(
                    ReadIds {
                        devices: self.devices,
                        wanted: self.wanted,
                        bdfs: find_addresses(&names),
                    },
                ),
                Err(err) => Step::Done(Err(CcError::Io(err))),
            },
            Reply::Names(Err(err)) => Step::Done(
                Err(CcError::PciTree(copy_error(err))),
            ),
            _ => Step::Done(Ok(Vec::new())),
        }
    }
}

// --- Identifying -------------------------------------------------------------

/// Who the devices are that the bus lists.
#[derive(Debug)]
pub struct ReadIds {
    devices: String,
    wanted: Wanted,
    bdfs: Vec<String>,
}

impl ReadIds {
    pub closed spec fn devices(&self) -> Seq<char> {
        self.devices@
    }

    pub closed spec fn wanted(&self) -> Wanted {
        self.wanted
    }

    /// The devices, by address.
    pub closed spec fn bdfs(&self) -> Seq<Seq<char>> {
        texts(self.bdfs@)
    }
}

/// The questions that tell who some devices are: the vendor and one attribute
/// of each.
pub open spec fn id_asks(devices: Seq<char>, attribute: Seq<char>, bdfs: Seq<Seq<char>>) -> Seq<
    Request,
>
    decreases bdfs.len(),
{
    if bdfs.len() == 0 {
        seq![]
    } else {
        let dir = joined_path(devices, bdfs.last());
        id_asks(devices, attribute, bdfs.drop_last()) + seq![
            Request::ReadText(joined_path(dir, "vendor"@)),
            Request::ReadText(joined_path(dir, attribute)),
        ]
    }
}

/// The devices that are what is wanted, going by the answers.
pub open spec fn matching(wanted: Wanted, bdfs: Seq<Seq<char>>, replies: Seq<Reply>) -> Seq<
    Seq<char>,
>
    decreases bdfs.len(),
{
    if bdfs.len() == 0 {
        seq![]
    } else {
        let n = 2 * (bdfs.len() - 1);
        let before = matching(wanted, bdfs.drop_last(), replies);
        if wanted.is(
            number_or_zero(told_text(replies[n]->Text_0)),
            number_or_zero(told_text(replies[n + 1]->Text_0)),
        ) {
            before.push(bdfs.last())
        } else {
            before
        }
    }
}

proof fn lemma_id_asks(devices: Seq<char>, attribute: Seq<char>, bdfs: Seq<Seq<char>>)
    ensures
        id_asks(devices, attribute, bdfs).len() == 2 * bdfs.len(),
        forall|i: int|
            0 <= i < 2 * bdfs.len() ==> #[trigger] id_asks(devices, attribute, bdfs)[i] is ReadText,
    decreases bdfs.len(),
{
    if bdfs.len() > 0 {
        lemma_id_asks(devices, attribute, bdfs.drop_last());
    }
}

/// A search looks at a device by its vendor and the one attribute that tells
/// what is wanted, and by nothing else: nothing is mapped, and no device woken.
pub proof fn a_search_reads_two_attributes(
    devices: Seq<char>,
    attribute: Seq<char>,
    bdfs: Seq<Seq<char>>,
    i: int,
)
    requires
        0 <= i < bdfs.len(),
    ensures
        id_asks(devices, attribute, bdfs).len() == 2 * bdfs.len(),
        id_asks(devices, attribute, bdfs)[2 * i] == Request::ReadText(
            joined_path(joined_path(devices, bdfs[i]), "vendor"@),
        ),
        id_asks(devices, attribute, bdfs)[2 * i + 1] == Request::ReadText(
            joined_path(joined_path(devices, bdfs[i]), attribute),
        ),
    decreases bdfs.len(),
{
    lemma_id_asks(devices, attribute, bdfs);
    lemma_id_asks(devices, attribute, bdfs.drop_last());
    if i < bdfs.len() - 1 {
        a_search_reads_two_attributes(devices, attribute, bdfs.drop_last(), i);
    }
}

/// Whether the `i`-th device is what is wanted, going by the answers.
pub open spec fn is_match(wanted: Wanted, replies: Seq<Reply>, i: int) -> bool {
    wanted.is(
        number_or_zero(told_text(replies[2 * i]->Text_0)),
        number_or_zero(told_text(replies[2 * i + 1]->Text_0)),
    )
}

/// A search finds the devices that are what is wanted, all of them, and no
/// others.
pub proof fn a_search_finds_what_is_wanted(
    wanted: Wanted,
    bdfs: Seq<Seq<char>>,
    replies: Seq<Reply>,
    bdf: Seq<char>,
)
    ensures
        sorted_texts(matching(wanted, bdfs, replies)).contains(bdf) <==> exists|i: int|
            0 <= i < bdfs.len() && bdfs[i] == bdf && #[trigger] is_match(wanted, replies, i),
{
    broadcast use vstd::seq_lib::group_to_multiset_ensures;

    let found = matching(wanted, bdfs, replies);
    lemma_matching(wanted, bdfs, replies, bdf);
    sorted_texts_are_all_there(found);
    assert(sorted_texts(found).to_multiset().count(bdf) == found.to_multiset().count(bdf));
}

proof fn lemma_matching(wanted: Wanted, bdfs: Seq<Seq<char>>, replies: Seq<Reply>, bdf: Seq<char>)
    ensures
        matching(wanted, bdfs, replies).contains(bdf) <==> exists|i: int|
            0 <= i < bdfs.len() && bdfs[i] == bdf && #[trigger] is_match(wanted, replies, i),
    decreases bdfs.len(),
{
    if bdfs.len() > 0 {
        let n = bdfs.len() - 1;
        let front = bdfs.drop_last();
        let before = matching(wanted, front, replies);
        let all = matching(wanted, bdfs, replies);
        lemma_matching(wanted, front, replies, bdf);
        if all.contains(bdf) && !before.contains(bdf) {
            let j = choose|j: int| 0 <= j < all.len() && all[j] == bdf;
            if j < before.len() {
                assert(before[j] == bdf);
            }
            assert(bdfs[n] == bdf && is_match(wanted, replies, n));
        }
        if before.contains(bdf) {
            let i = choose|i: int|
                0 <= i < front.len() && front[i] == bdf && #[trigger] is_match(wanted, replies, i);
            assert(bdfs[i] == bdf);
            let j = choose|j: int| 0 <= j < before.len() && before[j] == bdf;
            assert(all[j] == bdf);
        }
        if is_match(wanted, replies, n) && bdfs[n] == bdf {
            assert(all[all.len() - 1] == bdf);
        }
        if exists|i: int|
            0 <= i < bdfs.len() && bdfs[i] == bdf && #[trigger] is_match(wanted, replies, i) {
            let i = choose|i: int|
                0 <= i < bdfs.len() && bdfs[i] == bdf && #[trigger] is_match(wanted, replies, i);
            if i < n {
                assert(front[i] == bdf);
            }
        }
    }
}

impl Inquiry for ReadIds {
    type Output = Result<Vec<String>, CcError>;

    open spec fn asks(&self) -> Seq<Request> {
        id_asks(self.devices(), self.wanted().attribute(), self.bdfs())
    }

    open spec fn concludes(&self, replies: Seq<Reply>, output: Self::Output) -> bool {
        search_end(output) == Ok::<Seq<Seq<char>>, CcFault>(
            sorted_texts(matching(self.wanted(), self.bdfs(), replies)),
        )
    }

    proof fn asks_questions(&self) {
        lemma_id_asks(self.devices(), self.wanted().attribute(), self.bdfs());
    }

    fn questions(&self) -> (ops: Vec<Op>) {
        let ghost bdfs = self.bdfs();
        let attribute: &'static str = self.wanted.attribute_name();
        let mut ops: Vec<Op> = Vec::new();
        let mut i: usize = 0;
        assert(requests(ops@) =~= seq![]);
        while i < self.bdfs.len()
            invariant
                i <= self.bdfs.len(),
                bdfs == self.bdfs(),
                attribute@ == self.wanted().attribute(),
                requests(ops@) == id_asks(
                    self.devices(),
                    self.wanted().attribute(),
                    bdfs.take(i as int),
                ),
            decreases self.bdfs.len() - i,
        {
            proof {
                assert(bdfs.take(i + 1).drop_last() =~= bdfs.take(i as int));
                assert(bdfs.take(i + 1).last() == self.bdfs@[i as int]@);
            }
            let ghost before = ops@;
            let dir: String = join(&self.devices, &self.bdfs[i]);
            ops.push(Op::ReadText(join(&dir, "vendor")));
            ops.push(Op::ReadText(join(&dir, attribute)));
            proof {
                assert(requests(ops@) =~= requests(before) + seq![
                    Request::ReadText(joined_path(dir@, "vendor"@)),
                    Request::ReadText(joined_path(dir@, attribute@)),
                ]);
            }
            i = i + 1;
        }
        assert(bdfs.take(i as int) =~= bdfs);
        ops
    }

    fn conclude(self, replies: Vec<Reply>) -> (output: Self::Output) {
        let ghost bdfs = self.bdfs();
        let mut found: Vec<String> = Vec::new();
        let mut i: usize = 0;
        proof {
            lemma_id_asks(self.devices(), self.wanted().attribute(), bdfs);
            assert(texts(found@) =~= seq![]);
        }
        while i < self.bdfs.len()
            invariant
                i <= self.bdfs.len(),
                bdfs == self.bdfs(),
                self.asks().len() == 2 * bdfs.len(),
                answered(self.asks(), replies@),
                forall|j: int| 0 <= j < 2 * bdfs.len() ==> #[trigger] self.asks()[j] is ReadText,
                texts(found@) == matching(self.wanted, bdfs.take(i as int), replies@),
            decreases self.bdfs.len() - i,
        {
            proof {
                let n = 2 * i;
                assert(n + 1 < replies.len());
                assert(self.asks()[n] is ReadText && self.asks()[n + 1] is ReadText);
                assert(replies@[n].answers(self.asks()[n]));
                assert(replies@[n + 1].answers(self.asks()[n + 1]));
                assert(bdfs.take(i + 1).drop_last() =~= bdfs.take(i as int));
                assert(bdfs.take(i + 1).last() == self.bdfs@[i as int]@);
            }
            let vendor: u32 = hex_or_zero(&replies[2 * i]);
            let id: u32 = hex_or_zero(&replies[2 * i + 1]);
            let ghost before = found@;
            if self.wanted.check(vendor, id) {
                found.push(self.bdfs[i].clone());
                assert(texts(found@) =~= texts(before).push(self.bdfs@[i as int]@));
            }
            i = i + 1;
        }
        assert(bdfs.take(i as int) =~= bdfs);
        Ok(sort_texts(found))
    }
}

/// A search for devices.
pub type Search = Survey<ListBus, ReadIds>;

fn search(sysfs: &Sysfs, wanted: Wanted) -> (r: Search)
    ensures
        r matches Survey::First(inquest) && inquest.inquiry().devices() == devices_dir(sysfs.root())
            && inquest.inquiry().wanted() == wanted && inquest.replies() == Seq::<Reply>::empty(),
        r.well_formed(),
{
    Survey::ask(ListBus { devices: sysfs.devices(), wanted })
}

/// PCI addresses of all CC-capable NVIDIA GPUs on the node, sorted.
/// Reads only sysfs identity attributes: no root, no BAR0 mapping, and
/// no wake-up of runtime-suspended devices.
pub fn discover(sysfs: &Sysfs) -> (r: Search)
    ensures
        r matches Survey::First(inquest) && inquest.inquiry().devices() == devices_dir(sysfs.root())
            && inquest.inquiry().wanted() == Wanted::Gpus && inquest.replies() == Seq::<
            Reply,
        >::empty(),
        r.well_formed(),
{
    search(sysfs, Wanted::Gpus)
}

/// PCI addresses of all NVIDIA NVSwitches on the node, sorted.  Generation
/// is only knowable from BAR0, so opening one does that check.
pub fn discover_switches(sysfs: &Sysfs) -> (r: Search)
    ensures
        r matches Survey::First(inquest) && inquest.inquiry().devices() == devices_dir(sysfs.root())
            && inquest.inquiry().wanted() == Wanted::Switches && inquest.replies() == Seq::<
            Reply,
        >::empty(),
        r.well_formed(),
{
    search(sysfs, Wanted::Switches)
}

// --- What is found -----------------------------------------------------------

/// Every listed name that is an address is found, once for each time that it is
/// listed, in the order of the listing, and nothing else is found.
pub proof fn every_listed_address_is_found(a: Seq<Seq<char>>, b: Seq<Seq<char>>)
    ensures
        addresses(a + b) == addresses(a) + addresses(b),
        forall|name: Seq<char>| #[trigger]
            addresses(seq![name]) == (match canonical(name) {
                Some(bdf) => seq![bdf],
                None => seq![],
            }),
        forall|i: int|
            0 <= i < a.len() && canonical(#[trigger] a[i]) is Some ==> addresses(a).contains(
                canonical(a[i])->0,
            ),
        forall|bdf: Seq<char>| #[trigger]
            addresses(a).contains(bdf) ==> exists|i: int|
                0 <= i < a.len() && canonical(#[trigger] a[i]) == Some(bdf),
        addresses(a).len() == a.filter(|name: Seq<char>| canonical(name) is Some).len(),
{
    lemma_addresses_append(a, b);
    lemma_addresses_counted(a);
    assert forall|i: int|
        0 <= i < a.len() && canonical(#[trigger] a[i]) is Some implies addresses(a).contains(
        canonical(a[i])->0,
    ) by {
        lemma_address_found(a, i);
    }
    assert forall|bdf: Seq<char>| #[trigger] addresses(a).contains(bdf) implies exists|i: int|
        0 <= i < a.len() && canonical(#[trigger] a[i]) == Some(bdf) by {
        let k = choose|k: int| 0 <= k < addresses(a).len() && addresses(a)[k] == bdf;
        let i = lemma_address_listed(a, k);
        assert(canonical(a[i]) == Some(bdf));
    }
    reveal_with_fuel(addresses, 2);
    assert forall|name: Seq<char>| #[trigger]
        addresses(seq![name]) == (match canonical(name) {
            Some(bdf) => seq![bdf],
            None => seq![],
        }) by {
        assert(seq![name].drop_last() =~= seq![]);
    }
}

proof fn lemma_addresses_append(a: Seq<Seq<char>>, b: Seq<Seq<char>>)
    ensures
        addresses(a + b) == addresses(a) + addresses(b),
    decreases b.len(),
{
    if b.len() == 0 {
        assert(a + b =~= a);
    } else {
        assert((a + b).drop_last() =~= a + b.drop_last());
        lemma_addresses_append(a, b.drop_last());
    }
}

proof fn lemma_address_found(a: Seq<Seq<char>>, i: int)
    requires
        0 <= i < a.len(),
        canonical(a[i]) is Some,
    ensures
        addresses(a).contains(canonical(a[i])->0),
    decreases a.len(),
{
    let bdf = canonical(a[i])->0;
    let all = addresses(a);
    let before = addresses(a.drop_last());
    if i < a.len() - 1 {
        assert(a.drop_last()[i] == a[i]);
        lemma_address_found(a.drop_last(), i);
        let j = choose|j: int| 0 <= j < before.len() && before[j] == bdf;
        assert(all[j] == bdf);
    } else {
        assert(all[all.len() - 1] == bdf);
    }
}

proof fn lemma_address_listed(a: Seq<Seq<char>>, k: int) -> (i: int)
    requires
        0 <= k < addresses(a).len(),
    ensures
        0 <= i < a.len(),
        canonical(a[i]) == Some(addresses(a)[k]),
    decreases a.len(),
{
    let before = addresses(a.drop_last());
    if k < before.len() {
        let i = lemma_address_listed(a.drop_last(), k);
        assert(a.drop_last()[i] == a[i]);
        i
    } else {
        a.len() - 1
    }
}

proof fn lemma_addresses_counted(a: Seq<Seq<char>>)
    ensures
        addresses(a).len() == a.filter(|name: Seq<char>| canonical(name) is Some).len(),
    decreases a.len(),
{
    reveal(Seq::filter);
    if a.len() > 0 {
        lemma_addresses_counted(a.drop_last());
    }
}

/// A GPU is wanted where its vendor is 10de and its device number, the low
/// sixteen bits of what is read, is that of a part that can do confidential
/// computing; a switch where its vendor is 10de and its class, but for the
/// programming interface, is 0680.
pub proof fn what_is_wanted(vendor: u32, id: u32)
    ensures
        Wanted::Gpus.is(vendor, id) <==> vendor == 0x10de && (0x22f0 <= id % 0x10000 <= 0x237f
            || 0x2900 <= id % 0x10000 <= 0x29ff || 0x2b80 <= id % 0x10000 <= 0x2c7f || 0x2d00 <= id
            % 0x10000 <= 0x2dff || 0x2f00 <= id % 0x10000 <= 0x2f7f || 0x3180 <= id % 0x10000
            <= 0x327f),
        Wanted::Switches.is(vendor, id) <==> vendor == 0x10de && 0x068000 <= id <= 0x0680ff,
        Wanted::Gpus.attribute() == "device"@,
        Wanted::Switches.attribute() == "class"@,
{
    crate::cc::chip::a_part_is_known_by_its_number(id as u16);
    assert(id as u16 == id % 0x10000u32) by (bit_vector);
    assert((id >> 8 == 0x0680u32) <==> 0x068000u32 <= id && id <= 0x0680ffu32) by (bit_vector);
}

/// A search finds each address once for each match, so none is dropped and none
/// is found twice.
pub proof fn a_search_counts_its_matches(
    wanted: Wanted,
    bdfs: Seq<Seq<char>>,
    replies: Seq<Reply>,
    n: int,
)
    requires
        0 <= n < bdfs.len(),
    ensures
        matching(wanted, bdfs.take(n + 1), replies) == matching(wanted, bdfs.take(n), replies) + (
        if is_match(wanted, replies, n) {
            seq![bdfs[n]]
        } else {
            seq![]
        }),
        matching(wanted, bdfs.take(0), replies) == Seq::<Seq<char>>::empty(),
{
    assert(bdfs.take(n + 1).drop_last() =~= bdfs.take(n));
    assert(matching(wanted, bdfs.take(n + 1), replies) =~= matching(wanted, bdfs.take(n), replies)
        + (if is_match(wanted, replies, n) {
        seq![bdfs[n]]
    } else {
        seq![]
    }));
}

/// A search that ends finds a listed device exactly where it is what is wanted,
/// going by the vendor and the number that sysfs prints for it: a GPU by its
/// device number, a switch by its class.
pub proof fn every_wanted_device_is_found(
    list: ListBus,
    ids: ReadIds,
    output: Vec<String>,
    tree: Tree,
    entries: Seq<Result<Seq<char>, Told>>,
    name: Seq<char>,
    vendor: u32,
    id: u32,
    width: int,
)
    requires
        list.concludes(list.asks().map_values(tree), Step::Next(ids)),
        ids.concludes(ids.asks().map_values(tree), Ok(output)),
        told_names(tree(Request::ListDir(list.devices()))->Names_0) == Ok::<
            Seq<Result<Seq<char>, Told>>,
            Told,
        >(entries),
        entries.contains(Ok::<Seq<char>, Told>(name)),
        canonical(name) is Some,
        ({
            let dir = joined_path(list.devices(), canonical(name)->0);
            let attribute = match list.wanted() {
                Wanted::Gpus => "device"@,
                Wanted::Switches => "class"@,
            };
            &&& read_in(tree, joined_path(dir, "vendor"@)) == Ok::<Seq<char>, Told>(
                seq!['0', 'x'] + hex(vendor as int, 4) + seq!['\n'],
            )
            &&& read_in(tree, joined_path(dir, attribute)) == Ok::<Seq<char>, Told>(
                seq!['0', 'x'] + hex(id as int, width) + seq!['\n'],
            )
        }),
    ensures
        texts(output@).contains(canonical(name)->0) <==> list.wanted().is(vendor, id),
{
    let bdf = canonical(name)->0;
    let asks = ids.asks();
    let replies = asks.map_values(tree);
    let names = readable(entries);
    let bdfs = addresses(names);
    let wanted = list.wanted();
    readable_keeps_everything_read(entries, seq![]);
    assert(list.asks().map_values(tree)[0] == tree(Request::ListDir(list.devices())));
    assert(names.contains(name));
    let k = choose|k: int| 0 <= k < names.len() && names[k] == name;
    every_listed_address_is_found(names, seq![]);
    assert(bdfs.contains(canonical(names[k])->0));
    let at = choose|at: int| 0 <= at < bdfs.len() && bdfs[at] == bdf;
    let (v, x) = (
        seq!['0', 'x'] + hex(vendor as int, 4),
        seq!['0', 'x'] + hex(id as int, width),
    );
    a_printed_number_is_read(seq![], vendor as nat, 4, seq!['\n'], u32::MAX as int);
    a_printed_number_is_read(seq![], id as nat, width, seq!['\n'], u32::MAX as int);
    assert(seq![] + v + seq!['\n'] =~= v + seq!['\n']);
    assert(seq![] + x + seq!['\n'] =~= x + seq!['\n']);
    assert forall|i: int| 0 <= i < bdfs.len() && bdfs[i] == bdf implies (#[trigger] is_match(
        wanted,
        replies,
        i,
    ) <==> wanted.is(vendor, id)) by {
        a_search_reads_two_attributes(list.devices(), wanted.attribute(), bdfs, i);
        assert(replies[2 * i] == tree(asks[2 * i]));
        assert(replies[2 * i + 1] == tree(asks[2 * i + 1]));
    }
    assert(is_match(wanted, replies, at) <==> wanted.is(vendor, id));
    a_search_finds_what_is_wanted(wanted, bdfs, replies, bdf);
}

/// A bus that cannot be listed ends a search as the tree that could not be read,
/// and an entry of it that cannot be read as a read that failed.
pub proof fn a_bus_that_cannot_be_listed_is_told(
    list: ListBus,
    replies: Seq<Reply>,
    output: Step<ReadIds, Result<Vec<String>, CcError>>,
    names: Seq<Seq<char>>,
    fault: Told,
    rest: Seq<Result<Seq<char>, Told>>,
)
    requires
        list.concludes(replies, output),
    ensures
        told_names(replies[0]->Names_0) == Err::<Seq<Result<Seq<char>, Told>>, Told>(fault) ==> (
        output matches Step::Done(Err(err)) && err@ == CcFault::PciTree(fault)),
        told_names(replies[0]->Names_0) == Ok::<Seq<Result<Seq<char>, Told>>, Told>(
            names.map_values(|name: Seq<char>| Ok::<Seq<char>, Told>(name)) + seq![
                Err::<Seq<char>, Told>(fault),
            ] + rest,
        ) ==> (output matches Step::Done(Err(err)) && err@ == CcFault::Io(fault)),
{
    a_listing_is_read_up_to_its_first_fault(names, fault, rest);
}

/// What a search finds comes in the order of the addresses' texts.
pub proof fn what_is_found_is_sorted(ids: ReadIds, replies: Seq<Reply>, output: Vec<String>)
    requires
        ids.concludes(replies, Ok(output)),
    ensures
        forall|i: int, j: int|
            0 <= i < j < output@.len() ==> !text_before(
                (#[trigger] texts(output@)[j]),
                (#[trigger] texts(output@)[i]),
            ),
        output@.len() <= ids.bdfs().len(),
{
    let found = matching(ids.wanted(), ids.bdfs(), replies);
    sorted_texts_are_all_there(found);
    lemma_matching_is_fewer(ids.wanted(), ids.bdfs(), replies);
    let before = text_order();
    assert forall|i: int, j: int| 0 <= i < j < output@.len() implies !text_before(
        (#[trigger] texts(output@)[j]),
        (#[trigger] texts(output@)[i]),
    ) by {
        assert(!before(texts(output@)[j], texts(output@)[i]));
    }
    assert(texts(output@).len() == output@.len());
}

proof fn lemma_matching_is_fewer(wanted: Wanted, bdfs: Seq<Seq<char>>, replies: Seq<Reply>)
    ensures
        matching(wanted, bdfs, replies).len() <= bdfs.len(),
    decreases bdfs.len(),
{
    if bdfs.len() > 0 {
        lemma_matching_is_fewer(wanted, bdfs.drop_last(), replies);
    }
}

} // verus!
