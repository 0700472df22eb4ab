//! What the kernel exposes of InfiniBand, on one line.

use vstd::prelude::*;

use nix::sys::stat::SFlag;

use crate::inquiry::{answered, requests, Inquiry, Survey};
use crate::kernel::{
    told_listing, told_text, Entry, EntryState, IoError, Op, Procedure, Reply, Request, Step, Told,
    Tree,
};
use crate::listing::{
    entry_states, readable, readable_entries, readable_keeps_everything_read,
};
use crate::number::{decimal, push_decimal};
use crate::path::{a_path_ends_in_its_last_entry, entry_name, file_name, is_plain_component};
use crate::sysfs::{class_dir, Sysfs};
use crate::text::{
    after_prefix, chars, debug_quoted, has_part, is_trim, join_all, joined,
    joining_keeps_every_text, joining_puts_a_separator_between, lemma_part_of_more, quote,
    strip_prefix, text, texts, trim, trimmed, trimming_takes_off_what_is_around,
};

verus! {

/// Root of the InfiniBand character device tree.  Devfs rather than sysfs,
/// so it stays a path of its own.
pub const INFINIBAND_DEV_DIR: &'static str = "/dev/infiniband";

// --- Device nodes ------------------------------------------------------------

/// The bits of a mode that tell the type of a file.
pub const S_IFMT: u32 = 0o170000;

pub const S_IFCHR: u32 = 0o020000;

pub const S_IFBLK: u32 = 0o060000;

/// `nix::sys::stat::SFlag::from_bits_truncate`, and `bits` of what it makes:
/// of a mode it keeps the bits that some flag has, which are those of `S_IFMT`.
#[verifier::external_body]
fn type_bits(mode: u32) -> (r: u32)
    ensures
        r == mode & S_IFMT,
{
    SFlag::from_bits_truncate(mode).bits()
}

/// `nix::sys::stat::major`: the major number in a device number, bits 63:44
/// above bits 19:8.
pub assume_specification[ nix::sys::stat::major ](dev: u64) -> (r: u64)
    ensures
        r == major_of(dev),
;

/// `nix::sys::stat::minor`: the minor number in a device number, bits 43:20
/// above bits 7:0.
pub assume_specification[ nix::sys::stat::minor ](dev: u64) -> (r: u64)
    ensures
        r == minor_of(dev),
;

pub open spec fn major_of(dev: u64) -> u64 {
    ((dev >> 32) & 0xffff_f000) | ((dev >> 8) & 0xfff)
}

pub open spec fn minor_of(dev: u64) -> u64 {
    ((dev >> 12) & 0xffff_ff00) | (dev & 0xff)
}

/// What kind of device node a mode is that of.
pub open spec fn node_kind(mode: u32) -> Seq<char> {
    if mode & S_IFMT == S_IFCHR {
        "char"@
    } else if mode & S_IFMT == S_IFBLK {
        "block"@
    } else {
        "other"@
    }
}

pub fn device_kind(mode: u32) -> (r: &'static str)
    ensures
        r@ == node_kind(mode),
{
    let kind: u32 = type_bits(mode);
    if kind == S_IFCHR {
        "char"
    } else if kind == S_IFBLK {
        "block"
    } else {
        "other"
    }
}

// --- The parts of a snapshot -------------------------------------------------

/// An attribute's text, empty where it cannot be read.
pub open spec fn text_or_empty(content: Result<Seq<char>, Told>) -> Seq<char> {
    match content {
        Ok(content) => trimmed(content),
        Err(_) => seq![],
    }
}

fn attr_text(reply: &Reply) -> (r: String)
    requires
        reply is Text,
    ensures
        r@ == text_or_empty(told_text(reply->Text_0)),
{
    match reply {
        Reply::Text(Ok(content)) => text(trim(&chars(content))),
        _ => {
            let none: String = String::new();
            assert(none@ =~= seq![]);
            none
        },
    }
}

/// The address that an InfiniBand device's link leads to.
pub open spec fn linked_address(link: Result<Seq<char>, Told>) -> Seq<char> {
    match link {
        Ok(target) => match entry_name(target) {
            Some(name) => name,
            None => "<none>"@,
        },
        Err(_) => "<none>"@,
    }
}

fn address_of(reply: &Reply) -> (r: String)
    requires
        reply is Text,
    ensures
        r@ == linked_address(told_text(reply->Text_0)),
{
    match reply {
        Reply::Text(Ok(target)) => match file_name(target) {
            Some(name) => name,
            None => "<none>".to_string(),
        },
        _ => "<none>".to_string(),
    }
}

/// One InfiniBand device.
pub open spec fn ib_part(name: Seq<char>, link: Reply, node_type: Reply, fw: Reply) -> Seq<char> {
    name + "=[bdf="@ + linked_address(told_text(link->Text_0)) + ",node_type="@ + debug_quoted(
        text_or_empty(told_text(node_type->Text_0)),
    ) + ",fw="@ + text_or_empty(told_text(fw->Text_0)) + "]"@
}

fn show_ib(name: &str, link: &Reply, node_type: &Reply, fw: &Reply) -> (r: String)
    requires
        link is Text,
        node_type is Text,
        fw is Text,
    ensures
        r@ == ib_part(name@, *link, *node_type, *fw),
{
    let mut r: String = String::new();
    r.append(name);
    r.append("=[bdf=");
    r.append(&address_of(link));
    r.append(",node_type=");
    r.append(&quote(&attr_text(node_type)));
    r.append(",fw=");
    r.append(&attr_text(fw));
    r.append("]");
    assert(r@ =~= ib_part(name@, *link, *node_type, *fw));
    r
}

/// One verbs device.
pub open spec fn verbs_part(name: Seq<char>, ibdev: Reply, dev: Reply) -> Seq<char> {
    name + "=[ibdev="@ + text_or_empty(told_text(ibdev->Text_0)) + ",dev="@ + text_or_empty(
        told_text(dev->Text_0),
    ) + "]"@
}

fn show_verbs(name: &str, ibdev: &Reply, dev: &Reply) -> (r: String)
    requires
        ibdev is Text,
        dev is Text,
    ensures
        r@ == verbs_part(name@, *ibdev, *dev),
{
    let mut r: String = String::new();
    r.append(name);
    r.append("=[ibdev=");
    r.append(&attr_text(ibdev));
    r.append(",dev=");
    r.append(&attr_text(dev));
    r.append("]");
    assert(r@ =~= verbs_part(name@, *ibdev, *dev));
    r
}

/// One device node.
pub open spec fn node_part(name: Seq<char>, mode: u32, rdev: u64) -> Seq<char> {
    name + "=["@ + node_kind(mode) + ","@ + decimal(major_of(rdev) as int) + ":"@ + decimal(
        minor_of(rdev) as int,
    ) + "]"@
}

fn show_node(name: &str, mode: u32, rdev: u64) -> (r: String)
    ensures
        r@ == node_part(name@, mode, rdev),
{
    let mut r: String = String::new();
    r.append(name);
    r.append("=[");
    r.append(device_kind(mode));
    r.append(",");
    push_decimal(&mut r, nix::sys::stat::major(rdev));
    r.append(":");
    push_decimal(&mut r, nix::sys::stat::minor(rdev));
    r.append("]");
    assert(r@ =~= node_part(name@, mode, rdev));
    r
}

// --- Listing -----------------------------------------------------------------

/// What the trees list.
#[derive(Debug)]
pub struct ListTrees {
    ib: String,
    verbs: String,
    nodes: String,
}

impl ListTrees {
    /// Where the InfiniBand devices are, the verbs devices, and the device
    /// nodes.
    pub closed spec fn dirs(&self) -> (Seq<char>, Seq<char>, Seq<char>) {
        (self.ib@, self.verbs@, self.nodes@)
    }
}

/// The entries of a tree; a missing tree has none.
pub open spec fn entries_in(listing: Reply) -> Seq<EntryState> {
    match told_listing(listing->Names_0) {
        Ok(entries) => readable(entries),
        Err(_) => seq![],
    }
}

fn listed(listing: &Reply) -> (r: Vec<Entry>)
    requires
        listing is Names,
    ensures
        entry_states(r@) == entries_in(*listing),
{
    match listing {
        Reply::Names(Ok(entries)) => readable_entries(entries),
        _ => {
            let none: Vec<Entry> = Vec::new();
            assert(entry_states(none@) =~= seq![]);
            none
        },
    }
}

/// The verbs devices among some entries.
pub open spec fn only_verbs(entries: Seq<EntryState>) -> Seq<EntryState>
    decreases entries.len(),
{
    if entries.len() == 0 {
        seq![]
    } else {
        let before = only_verbs(entries.drop_last());
        if after_prefix(entries.last().name, "uverbs"@) is Some {
            before.push(entries.last())
        } else {
            before
        }
    }
}

fn keep_verbs(entries: Vec<Entry>) -> (r: Vec<Entry>)
    ensures
        entry_states(r@) == only_verbs(entry_states(entries@)),
{
    let ghost all = entry_states(entries@);
    let mut r: Vec<Entry> = Vec::new();
    let mut i: usize = 0;
    assert(entry_states(r@) =~= seq![]);
    while i < entries.len()
        invariant
            i <= entries.len(),
            all == entry_states(entries@),
            entry_states(r@) == only_verbs(all.take(i as int)),
        decreases entries.len() - i,
    {
        proof {
            assert(all.take(i + 1).drop_last() =~= all.take(i as int));
            assert(all.take(i + 1).last() == entries@[i as int]@);
        }
        let ghost before = r@;
        if strip_prefix(&chars(&entries[i].name), "uverbs").is_some() {
            r.push(entries[i].clone());
            assert(entry_states(r@) =~= entry_states(before).push(entries@[i as int]@));
        }
        i = i + 1;
    }
    assert(all.take(i as int) =~= all);
    r
}

impl Inquiry for ListTrees {
    type Output = Step<ReadTrees, String>;

    open spec fn asks(&self) -> Seq<Request> {
        seq![
            Request::ListDir(self.dirs().0),
            Request::ListDir(self.dirs().1),
            Request::ListDir(self.dirs().2),
        ]
    }

    open spec fn concludes(&self, replies: Seq<Reply>, output: Self::Output) -> bool {
        output matches Step::Next(read) && read.dirs() == self.dirs() && read.entries() == (
            entries_in(replies[0]),
            only_verbs(entries_in(replies[1])),
            entries_in(replies[2]),
        )
    }

    proof fn asks_questions(&self) {
    }

    fn questions(&self) -> (ops: Vec<Op>) {
        let mut ops: Vec<Op> = Vec::new();
        ops.push(Op::ListDir(self.ib.clone()));
        ops.push(Op::ListDir(self.verbs.clone()));
        ops.push(Op::ListDir(self.nodes.clone()));
        assert(requests(ops@) =~= self.asks());
        ops
    }

    fn conclude(self, replies: Vec<Reply>) -> (output: Self::Output) {
        proof {
            assert(replies@[0].answers(self.asks()[0]));
            assert(replies@[1].answers(self.asks()[1]));
            assert(replies@[2].answers(self.asks()[2]));
        }
        let ib_found: Vec<Entry> = listed(&replies[0]);
        let verbs_found: Vec<Entry> = keep_verbs(listed(&replies[1]));
        let node_found: Vec<Entry> = listed(&replies[2]);
        Step::Next(
            ReadTrees {
                ib: self.ib,
                verbs: self.verbs,
                nodes: self.nodes,
                ib_found,
                verbs_found,
                node_found,
            },
        )
    }
}

// --- Reading -----------------------------------------------------------------

/// What is in the trees.
#[derive(Debug)]
pub struct ReadTrees {
    ib: String,
    verbs: String,
    nodes: String,
    ib_found: Vec<Entry>,
    verbs_found: Vec<Entry>,
    node_found: Vec<Entry>,
}

impl ReadTrees {
    pub closed spec fn dirs(&self) -> (Seq<char>, Seq<char>, Seq<char>) {
        (self.ib@, self.verbs@, self.nodes@)
    }

    /// The InfiniBand devices, the verbs devices, and the device nodes.
    pub closed spec fn entries(&self) -> (Seq<EntryState>, Seq<EntryState>, Seq<EntryState>) {
        (entry_states(self.ib_found@), entry_states(self.verbs_found@), entry_states(
            self.node_found@,
        ))
    }
}

/// The questions about some InfiniBand devices.
pub open spec fn ib_asks(dir: Seq<char>, entries: Seq<EntryState>) -> Seq<Request>
    decreases entries.len(),
{
    if entries.len() == 0 {
        seq![]
    } else {
        let raw = entries.last().raw;
        ib_asks(dir, entries.drop_last()) + seq![
            Request::ReadEntryLink(dir, raw, "device"@),
            Request::ReadEntryText(dir, raw, "node_type"@),
            Request::ReadEntryText(dir, raw, "fw_ver"@),
        ]
    }
}

/// The questions about some verbs devices.
pub open spec fn verbs_asks(dir: Seq<char>, entries: Seq<EntryState>) -> Seq<Request>
    decreases entries.len(),
{
    if entries.len() == 0 {
        seq![]
    } else {
        let raw = entries.last().raw;
        verbs_asks(dir, entries.drop_last()) + seq![
            Request::ReadEntryText(dir, raw, "ibdev"@),
            Request::ReadEntryText(dir, raw, "dev"@),
        ]
    }
}

/// The questions about some device nodes.
pub open spec fn node_asks(dir: Seq<char>, entries: Seq<EntryState>) -> Seq<Request> {
    entries.map_values(|entry: EntryState| Request::StatEntry(dir, entry.raw))
}

/// The InfiniBand devices, going by the answers.
pub open spec fn ib_parts(entries: Seq<EntryState>, replies: Seq<Reply>) -> Seq<Seq<char>>
    decreases entries.len(),
{
    if entries.len() == 0 {
        seq![]
    } else {
        let n = 3 * (entries.len() - 1);
        ib_parts(entries.drop_last(), replies).push(
            ib_part(entries.last().name, replies[n], replies[n + 1], replies[n + 2]),
        )
    }
}

/// The verbs devices, going by the answers from the `start`-th on.
pub open spec fn verbs_parts(entries: Seq<EntryState>, replies: Seq<Reply>, start: int) -> Seq<
    Seq<char>,
>
    decreases entries.len(),
{
    if entries.len() == 0 {
        seq![]
    } else {
        let n = start + 2 * (entries.len() - 1);
        verbs_parts(entries.drop_last(), replies, start).push(
            verbs_part(entries.last().name, replies[n], replies[n + 1]),
        )
    }
}

/// The device nodes, going by the answers from the `start`-th on; one that has
/// gone is left out.
pub open spec fn node_parts(entries: Seq<EntryState>, replies: Seq<Reply>, start: int) -> Seq<
    Seq<char>,
>
    decreases entries.len(),
{
    if entries.len() == 0 {
        seq![]
    } else {
        let before = node_parts(entries.drop_last(), replies, start);
        match replies[start + entries.len() - 1]->Node_0 {
            Ok((mode, rdev)) => before.push(node_part(entries.last().name, mode, rdev)),
            Err(_) => before,
        }
    }
}

/// The whole line.
pub open spec fn snapshot_text(
    ib: Seq<Seq<char>>,
    verbs: Seq<Seq<char>>,
    nodes: Seq<Seq<char>>,
) -> Seq<char> {
    "ib_devices=["@ + joined(ib, ", "@) + "] uverbs=["@ + joined(verbs, ", "@) + "] chardevs=["@
        + joined(nodes, ", "@) + "]"@
}

fn ask_text(dir: &str, entry: &Entry, file: &str) -> (op: Op)
    ensures
        op@ == Request::ReadEntryText(dir@, entry@.raw, file@),
{
    let raw: Vec<u8> = entry.raw.clone();
    assert(raw@ =~= entry@.raw);
    Op::ReadEntryText(dir.to_string(), raw, file.to_string())
}

fn ask_link(dir: &str, entry: &Entry, file: &str) -> (op: Op)
    ensures
        op@ == Request::ReadEntryLink(dir@, entry@.raw, file@),
{
    let raw: Vec<u8> = entry.raw.clone();
    assert(raw@ =~= entry@.raw);
    Op::ReadEntryLink(dir.to_string(), raw, file.to_string())
}

proof fn lemma_ib_asks(dir: Seq<char>, entries: Seq<EntryState>)
    ensures
        ib_asks(dir, entries).len() == 3 * entries.len(),
        forall|i: int|
            0 <= i < 3 * entries.len() ==> {
                let ask = #[trigger] ib_asks(dir, entries)[i];
                ask is ReadEntryText || ask is ReadEntryLink
            },
    decreases entries.len(),
{
    if entries.len() > 0 {
        lemma_ib_asks(dir, entries.drop_last());
    }
}

proof fn lemma_verbs_asks(dir: Seq<char>, entries: Seq<EntryState>)
    ensures
        verbs_asks(dir, entries).len() == 2 * entries.len(),
        forall|i: int|
            0 <= i < 2 * entries.len() ==> #[trigger] verbs_asks(dir, entries)[i] is ReadEntryText,
    decreases entries.len(),
{
    if entries.len() > 0 {
        lemma_verbs_asks(dir, entries.drop_last());
    }
}

/// Whether the answers are texts, and from the `start`-th on those of nodes.
spec fn texts_then_nodes(replies: Seq<Reply>, start: int) -> bool {
    &&& forall|i: int| 0 <= i < start ==> #[trigger] replies[i] is Text
    &&& forall|i: int| start <= i < replies.len() ==> #[trigger] replies[i] is Node
}

impl ReadTrees {
    proof fn lemma_answers(&self, replies: Seq<Reply>)
        requires
            answered(self.asks(), replies),
        ensures
            replies.len() == 3 * self.ib_found.len() + 2 * self.verbs_found.len()
                + self.node_found.len(),
            texts_then_nodes(replies, 3 * self.ib_found.len() + 2 * self.verbs_found.len()),
    {
        let ib = ib_asks(self.dirs().0, self.entries().0);
        let verbs = verbs_asks(self.dirs().1, self.entries().1);
        let nodes = node_asks(self.dirs().2, self.entries().2);
        lemma_ib_asks(self.dirs().0, self.entries().0);
        lemma_verbs_asks(self.dirs().1, self.entries().1);
        let asks = ib + verbs + nodes;
        let start = ib.len() + verbs.len();
        assert forall|i: int| 0 <= i < start implies #[trigger] replies[i] is Text by {
            assert(replies[i].answers(asks[i]));
            if i < ib.len() {
                assert(asks[i] == ib[i]);
            } else {
                assert(asks[i] == verbs[i - ib.len()]);
            }
        }
        assert forall|i: int| start <= i < replies.len() implies #[trigger] replies[i] is Node by {
            assert(replies[i].answers(asks[i]));
            assert(asks[i] == nodes[i - start]);
        }
    }

    fn show_ibs(&self, replies: &Vec<Reply>) -> (r: Vec<String>)
        requires
            3 * self.ib_found.len() <= replies.len(),
            forall|i: int| 0 <= i < 3 * self.ib_found.len() ==> #[trigger] replies@[i] is Text,
        ensures
            texts(r@) == ib_parts(self.entries().0, replies@),
    {
        let ghost all = self.entries().0;
        let mut r: Vec<String> = Vec::new();
        let mut i: usize = 0;
        assert(texts(r@) =~= seq![]);
        while i < self.ib_found.len()
            invariant
                i <= self.ib_found.len(),
                all == self.entries().0,
                3 * self.ib_found.len() <= replies.len(),
                forall|i: int| 0 <= i < 3 * self.ib_found.len() ==> #[trigger] replies@[i] is Text,
                texts(r@) == ib_parts(all.take(i as int), replies@),
            decreases self.ib_found.len() - i,
        {
            proof {
                assert(all.take(i + 1).drop_last() =~= all.take(i as int));
                assert(all.take(i + 1).last() == self.ib_found@[i as int]@);
            }
            let ghost before = r@;
            let part: String = show_ib(
                &self.ib_found[i].name,
                &replies[3 * i],
                &replies[3 * i + 1],
                &replies[3 * i + 2],
            );
            let ghost shown = part@;
            r.push(part);
            assert(texts(r@) =~= texts(before).push(shown));
            i = i + 1;
        }
        assert(all.take(i as int) =~= all);
        r
    }

    fn show_all_verbs(&self, replies: &Vec<Reply>, start: usize) -> (r: Vec<String>)
        requires
            start + 2 * self.verbs_found.len() <= replies.len(),
            forall|i: int|
                start <= i < start + 2 * self.verbs_found.len() ==> #[trigger] replies@[i] is Text,
        ensures
            texts(r@) == verbs_parts(self.entries().1, replies@, start as int),
    {
        let ghost all = self.entries().1;
        let mut r: Vec<String> = Vec::new();
        let mut i: usize = 0;
        assert(texts(r@) =~= seq![]);
        while i < self.verbs_found.len()
            invariant
                i <= self.verbs_found.len(),
                all == self.entries().1,
                start + 2 * self.verbs_found.len() <= replies.len(),
                forall|i: int|
                    start <= i < start + 2 * self.verbs_found.len()
                        ==> #[trigger] replies@[i] is Text,
                texts(r@) == verbs_parts(all.take(i as int), replies@, start as int),
            decreases self.verbs_found.len() - i,
        {
            proof {
                assert(all.take(i + 1).drop_last() =~= all.take(i as int));
                assert(all.take(i + 1).last() == self.verbs_found@[i as int]@);
            }
            let ghost before = r@;
            let part: String = show_verbs(
                &self.verbs_found[i].name,
                &replies[start + 2 * i],
                &replies[start + 2 * i + 1],
            );
            let ghost shown = part@;
            r.push(part);
            assert(texts(r@) =~= texts(before).push(shown));
            i = i + 1;
        }
        assert(all.take(i as int) =~= all);
        r
    }

    fn show_nodes(&self, replies: &Vec<Reply>, start: usize) -> (r: Vec<String>)
        requires
            start + self.node_found.len() == replies.len(),
            forall|i: int| start <= i < replies.len() ==> #[trigger] replies@[i] is Node,
        ensures
            texts(r@) == node_parts(self.entries().2, replies@, start as int),
    {
        let ghost all = self.entries().2;
        let mut r: Vec<String> = Vec::new();
        let mut i: usize = 0;
        assert(texts(r@) =~= seq![]);
        while i < self.node_found.len()
            invariant
                i <= self.node_found.len(),
                all == self.entries().2,
                start + self.node_found.len() == replies.len(),
                forall|i: int| start <= i < replies.len() ==> #[trigger] replies@[i] is Node,
                texts(r@) == node_parts(all.take(i as int), replies@, start as int),
            decreases self.node_found.len() - i,
        {
            proof {
                assert(all.take(i + 1).drop_last() =~= all.take(i as int));
                assert(all.take(i + 1).last() == self.node_found@[i as int]@);
                assert(replies@[start + i] is Node);
            }
            let ghost before = r@;
            if let Reply::Node(Ok((mode, rdev))) = &replies[start + i] {
                let part: String = show_node(&self.node_found[i].name, *mode, *rdev);
                let ghost shown = part@;
                r.push(part);
                assert(texts(r@) =~= texts(before).push(shown));
            }
            i = i + 1;
        }
        assert(all.take(i as int) =~= all);
        r
    }
}

impl Inquiry for ReadTrees {
    type Output = String;

    open spec fn asks(&self) -> Seq<Request> {
        ib_asks(self.dirs().0, self.entries().0) + verbs_asks(self.dirs().1, self.entries().1)
            + node_asks(self.dirs().2, self.entries().2)
    }

    open spec fn concludes(&self, replies: Seq<Reply>, output: String) -> bool {
        let (ib, verbs, nodes) = self.entries();
        output@ == snapshot_text(
            ib_parts(ib, replies),
            verbs_parts(verbs, replies, 3 * (ib.len() as int)),
            node_parts(nodes, replies, 3 * (ib.len() as int) + 2 * (verbs.len() as int)),
        )
    }

    proof fn asks_questions(&self) {
        lemma_ib_asks(self.dirs().0, self.entries().0);
        lemma_verbs_asks(self.dirs().1, self.entries().1);
    }

    fn questions(&self) -> (ops: Vec<Op>) {
        let ghost (dirs, entries) = (self.dirs(), self.entries());
        let mut ops: Vec<Op> = Vec::new();
        let mut i: usize = 0;
        assert(requests(ops@) =~= seq![]);
        while i < self.ib_found.len()
            invariant
                i <= self.ib_found.len(),
                dirs == self.dirs(),
                entries == self.entries(),
                requests(ops@) == ib_asks(dirs.0, entries.0.take(i as int)),
            decreases self.ib_found.len() - i,
        {
            proof {
                assert(entries.0.take(i + 1).drop_last() =~= entries.0.take(i as int));
                assert(entries.0.take(i + 1).last() == self.ib_found@[i as int]@);
            }
            let ghost before = ops@;
            let ghost raw = self.ib_found@[i as int].raw@;
            ops.push(ask_link(&self.ib, &self.ib_found[i], "device"));
            ops.push(ask_text(&self.ib, &self.ib_found[i], "node_type"));
            ops.push(ask_text(&self.ib, &self.ib_found[i], "fw_ver"));
            assert(requests(ops@) =~= requests(before) + seq![
                Request::ReadEntryLink(dirs.0, raw, "device"@),
                Request::ReadEntryText(dirs.0, raw, "node_type"@),
                Request::ReadEntryText(dirs.0, raw, "fw_ver"@),
            ]);
            i = i + 1;
        }
        let ghost ib = requests(ops@);
        assert(entries.0.take(i as int) =~= entries.0);
        i = 0;
        assert(entries.1.take(0) =~= seq![]);
        assert(requests(ops@) =~= ib + verbs_asks(dirs.1, entries.1.take(0)));
        while i < self.verbs_found.len()
            invariant
                i <= self.verbs_found.len(),
                dirs == self.dirs(),
                entries == self.entries(),
                requests(ops@) == ib + verbs_asks(dirs.1, entries.1.take(i as int)),
            decreases self.verbs_found.len() - i,
        {
            proof {
                assert(entries.1.take(i + 1).drop_last() =~= entries.1.take(i as int));
                assert(entries.1.take(i + 1).last() == self.verbs_found@[i as int]@);
            }
            let ghost before = ops@;
            let ghost raw = self.verbs_found@[i as int].raw@;
            ops.push(ask_text(&self.verbs, &self.verbs_found[i], "ibdev"));
            ops.push(ask_text(&self.verbs, &self.verbs_found[i], "dev"));
            proof {
                let more = seq![
                    Request::ReadEntryText(dirs.1, raw, "ibdev"@),
                    Request::ReadEntryText(dirs.1, raw, "dev"@),
                ];
                let asked = verbs_asks(dirs.1, entries.1.take(i as int));
                assert(requests(ops@) =~= requests(before) + more);
                assert(ib + asked + more =~= ib + (asked + more));
            }
            i = i + 1;
        }
        let ghost attrs = requests(ops@);
        assert(entries.1.take(i as int) =~= entries.1);
        i = 0;
        assert(requests(ops@) =~= attrs + node_asks(dirs.2, entries.2.take(0)));
        while i < self.node_found.len()
            invariant
                i <= self.node_found.len(),
                dirs == self.dirs(),
                entries == self.entries(),
                requests(ops@) == attrs + node_asks(dirs.2, entries.2.take(i as int)),
            decreases self.node_found.len() - i,
        {
            let ghost before = ops@;
            let ghost raw = self.node_found@[i as int].raw@;
            let ghost stat = Request::StatEntry(dirs.2, raw);
            let name: Vec<u8> = self.node_found[i].raw.clone();
            assert(name@ =~= raw);
            ops.push(Op::StatEntry(self.nodes.clone(), name));
            proof {
                let asked = node_asks(dirs.2, entries.2.take(i as int));
                assert(entries.2[i as int] == self.node_found@[i as int]@);
                assert(requests(ops@) =~= requests(before).push(stat));
                assert(node_asks(dirs.2, entries.2.take(i + 1)) =~= asked.push(stat));
                assert((attrs + asked).push(stat) =~= attrs + asked.push(stat));
            }
            i = i + 1;
        }
        assert(entries.2.take(i as int) =~= entries.2);
        ops
    }

    fn conclude(self, replies: Vec<Reply>) -> (output: String) {
        proof {
            self.lemma_answers(replies@);
            assert(3 * self.ib_found.len() + 2 * self.verbs_found.len() <= replies.len());
        }
        let verbs_start: usize = 3 * self.ib_found.len();
        let node_start: usize = verbs_start + 2 * self.verbs_found.len();
        let ib: Vec<String> = self.show_ibs(&replies);
        let verbs: Vec<String> = self.show_all_verbs(&replies, verbs_start);
        let nodes: Vec<String> = self.show_nodes(&replies, node_start);
        let mut r: String = String::new();
        r.append("ib_devices=[");
        r.append(&join_all(&ib, ", "));
        r.append("] uverbs=[");
        r.append(&join_all(&verbs, ", "));
        r.append("] chardevs=[");
        r.append(&join_all(&nodes, ", "));
        r.append("]");
        assert(r@ =~= snapshot_text(texts(ib@), texts(verbs@), texts(nodes@)));
        r
    }
}

// --- What a tree tells -------------------------------------------------------

/// The InfiniBand devices, going by a tree.
pub open spec fn ibs_in(tree: Tree, dir: Seq<char>, entries: Seq<EntryState>) -> Seq<Seq<char>> {
    entries.map_values(
        |entry: EntryState|
            ib_part(
                entry.name,
                tree(Request::ReadEntryLink(dir, entry.raw, "device"@)),
                tree(Request::ReadEntryText(dir, entry.raw, "node_type"@)),
                tree(Request::ReadEntryText(dir, entry.raw, "fw_ver"@)),
            ),
    )
}

/// The verbs devices, going by a tree.
pub open spec fn verbs_in(tree: Tree, dir: Seq<char>, entries: Seq<EntryState>) -> Seq<Seq<char>> {
    entries.map_values(
        |entry: EntryState|
            verbs_part(
                entry.name,
                tree(Request::ReadEntryText(dir, entry.raw, "ibdev"@)),
                tree(Request::ReadEntryText(dir, entry.raw, "dev"@)),
            ),
    )
}

/// The device nodes, going by a tree.
pub open spec fn nodes_in(tree: Tree, dir: Seq<char>, entries: Seq<EntryState>) -> Seq<Seq<char>>
    decreases entries.len(),
{
    if entries.len() == 0 {
        seq![]
    } else {
        let before = nodes_in(tree, dir, entries.drop_last());
        match tree(Request::StatEntry(dir, entries.last().raw))->Node_0 {
            Ok((mode, rdev)) => before.push(node_part(entries.last().name, mode, rdev)),
            Err(_) => before,
        }
    }
}

/// The snapshot of a tree, going by where the InfiniBand devices are, the verbs
/// devices, and the device nodes.
pub open spec fn snapshot_in(tree: Tree, dirs: (Seq<char>, Seq<char>, Seq<char>)) -> Seq<char> {
    snapshot_text(
        ibs_in(tree, dirs.0, entries_in(tree(Request::ListDir(dirs.0)))),
        verbs_in(tree, dirs.1, only_verbs(entries_in(tree(Request::ListDir(dirs.1))))),
        nodes_in(tree, dirs.2, entries_in(tree(Request::ListDir(dirs.2)))),
    )
}

proof fn lemma_ibs_in(tree: Tree, dir: Seq<char>, entries: Seq<EntryState>, replies: Seq<Reply>)
    requires
        forall|i: int|
            0 <= i < 3 * entries.len() ==> #[trigger] replies[i] == tree(ib_asks(dir, entries)[i]),
    ensures
        ib_parts(entries, replies) == ibs_in(tree, dir, entries),
    decreases entries.len(),
{
    if entries.len() > 0 {
        let front = entries.drop_last();
        let n = 3 * front.len() as int;
        lemma_ib_asks(dir, front);
        assert forall|i: int| 0 <= i < n implies #[trigger] replies[i] == tree(
            ib_asks(dir, front)[i],
        ) by {
            assert(ib_asks(dir, entries)[i] == ib_asks(dir, front)[i]);
        }
        lemma_ibs_in(tree, dir, front, replies);
        assert(replies[n] == tree(ib_asks(dir, entries)[n]));
        assert(replies[n + 1] == tree(ib_asks(dir, entries)[n + 1]));
        assert(replies[n + 2] == tree(ib_asks(dir, entries)[n + 2]));
    }
    assert(ib_parts(entries, replies) =~= ibs_in(tree, dir, entries));
}

proof fn lemma_verbs_in(
    tree: Tree,
    dir: Seq<char>,
    entries: Seq<EntryState>,
    replies: Seq<Reply>,
    start: int,
)
    requires
        forall|i: int|
            0 <= i < 2 * entries.len() ==> replies[start + i] == tree(
                #[trigger] verbs_asks(dir, entries)[i],
            ),
    ensures
        verbs_parts(entries, replies, start) == verbs_in(tree, dir, entries),
    decreases entries.len(),
{
    if entries.len() > 0 {
        let front = entries.drop_last();
        let n = 2 * front.len() as int;
        lemma_verbs_asks(dir, front);
        assert forall|i: int| 0 <= i < n implies replies[start + i] == tree(
            #[trigger] verbs_asks(dir, front)[i],
        ) by {
            assert(verbs_asks(dir, entries)[i] == verbs_asks(dir, front)[i]);
        }
        lemma_verbs_in(tree, dir, front, replies, start);
        assert(replies[start + n] == tree(verbs_asks(dir, entries)[n]));
        assert(replies[start + (n + 1)] == tree(verbs_asks(dir, entries)[n + 1]));
    }
    assert(verbs_parts(entries, replies, start) =~= verbs_in(tree, dir, entries));
}

proof fn lemma_nodes_in(
    tree: Tree,
    dir: Seq<char>,
    entries: Seq<EntryState>,
    replies: Seq<Reply>,
    start: int,
)
    requires
        forall|i: int|
            0 <= i < entries.len() ==> replies[start + i] == tree(
                #[trigger] node_asks(dir, entries)[i],
            ),
    ensures
        node_parts(entries, replies, start) == nodes_in(tree, dir, entries),
    decreases entries.len(),
{
    if entries.len() > 0 {
        let front = entries.drop_last();
        let n = front.len() as int;
        assert forall|i: int| 0 <= i < n implies replies[start + i] == tree(
            #[trigger] node_asks(dir, front)[i],
        ) by {
            assert(node_asks(dir, entries)[i] == node_asks(dir, front)[i]);
        }
        lemma_nodes_in(tree, dir, front, replies, start);
        assert(replies[start + n] == tree(node_asks(dir, entries)[n]));
    }
}

/// In a tree that does not change, a snapshot shows all there is: every
/// InfiniBand device, every verbs device and every device node, each with what
/// the tree tells of it.
pub proof fn a_snapshot_shows_what_there_is(
    list: ListTrees,
    read: ReadTrees,
    output: String,
    tree: Tree,
)
    requires
        list.concludes(list.asks().map_values(tree), Step::Next(read)),
        read.concludes(read.asks().map_values(tree), output),
    ensures
        output@ == snapshot_in(tree, list.dirs()),
{
    let replies = read.asks().map_values(tree);
    let (dirs, entries) = (read.dirs(), read.entries());
    let ib = ib_asks(dirs.0, entries.0);
    let verbs = verbs_asks(dirs.1, entries.1);
    let nodes = node_asks(dirs.2, entries.2);
    lemma_ib_asks(dirs.0, entries.0);
    lemma_verbs_asks(dirs.1, entries.1);
    let start = ib.len() + verbs.len();
    assert forall|i: int| 0 <= i < 3 * entries.0.len() implies #[trigger] replies[i] == tree(
        ib[i],
    ) by {
        assert(read.asks()[i] == ib[i]);
    }
    assert forall|i: int| 0 <= i < 2 * entries.1.len() implies replies[ib.len() + i] == tree(
        #[trigger] verbs[i],
    ) by {
        assert(read.asks()[ib.len() + i] == verbs[i]);
    }
    assert forall|i: int| 0 <= i < entries.2.len() implies replies[start + i] == tree(
        #[trigger] nodes[i],
    ) by {
        assert(read.asks()[start + i] == nodes[i]);
    }
    lemma_ibs_in(tree, dirs.0, entries.0, replies);
    lemma_verbs_in(tree, dirs.1, entries.1, replies, ib.len() as int);
    lemma_nodes_in(tree, dirs.2, entries.2, replies, start as int);
}

/// One-line summary of every InfiniBand device the guest kernel currently
/// exposes, plus every device node under `dev_dir` and the PCI BDF backing
/// each IB device.
///
/// Pure sysfs / devfs reads.  Used as a diagnostic context string in log
/// calls, so it never fails: a missing tree is itself the diagnosis.
pub fn snapshot_infiniband(dev_dir: &str, sysfs: &Sysfs) -> (r: Survey<ListTrees, ReadTrees>)
    ensures
        r matches Survey::First(inquest) && inquest.inquiry().dirs() == (
            class_dir(sysfs.root(), "infiniband"@),
            class_dir(sysfs.root(), "infiniband_verbs"@),
            dev_dir@,
        ) && inquest.replies() == Seq::<Reply>::empty(),
        r.well_formed(),
{
    let trees: ListTrees = ListTrees {
        ib: sysfs.infiniband(),
        verbs: sysfs.infiniband_verbs(),
        nodes: dev_dir.to_string(),
    };
    Survey::ask(trees)
}

// --- What a snapshot holds ---------------------------------------------------

/// The verbs devices are all the entries whose name starts with `uverbs`, in
/// their order, and no other.
pub proof fn verbs_devices_are_all_there(entries: Seq<EntryState>)
    ensures
        only_verbs(entries) == entries.filter(
            |e: EntryState| e.name.len() >= 6 && e.name.take(6) == "uverbs"@,
        ),
        forall|i: int|
            0 <= i < entries.len() && (#[trigger] entries[i]).name.len() >= 6
                && entries[i].name.take(6) == "uverbs"@ ==> only_verbs(entries).contains(entries[i]),
    decreases entries.len(),
{
    reveal_strlit("uverbs");
    reveal(Seq::filter);
    if entries.len() > 0 {
        let front = entries.drop_last();
        let all = only_verbs(entries);
        let before = only_verbs(front);
        verbs_devices_are_all_there(front);
        assert forall|i: int|
            0 <= i < entries.len() && (#[trigger] entries[i]).name.len() >= 6
                && entries[i].name.take(6) == "uverbs"@ implies all.contains(entries[i]) by {
            if i < front.len() {
                assert(front[i] == entries[i]);
                let j = choose|j: int| 0 <= j < before.len() && before[j] == entries[i];
                assert(all[j] == entries[i]);
            } else {
                assert(all[all.len() - 1] == entries[i]);
            }
        }
    }
}

/// The number of a device node holds a major and a minor number of 32 bits each:
/// the low twelve bits of the first and the low eight of the second lie in the
/// low twenty.
pub proof fn a_device_number_is_two_numbers(major: u32, minor: u32)
    ensures
        ({
            let dev = ((major as u64 & 0xffff_f000) << 32) | ((minor as u64 & 0xffff_ff00) << 12)
                | ((major as u64 & 0xfff) << 8) | (minor as u64 & 0xff);
            major_of(dev) == major && minor_of(dev) == minor
        }),
{
    let (j, n) = (major as u64, minor as u64);
    let dev = ((j & 0xffff_f000) << 32) | ((n & 0xffff_ff00) << 12) | ((j & 0xfff) << 8) | (n
        & 0xff);
    assert((((dev >> 32) & 0xffff_f000) | ((dev >> 8) & 0xfff)) == j && (((dev >> 12)
        & 0xffff_ff00) | (dev & 0xff)) == n) by (bit_vector)
        requires
            j <= 0xffff_ffff,
            n <= 0xffff_ffff,
            dev == ((j & 0xffff_f000) << 32) | ((n & 0xffff_ff00) << 12) | ((j & 0xfff) << 8) | (n
                & 0xff),
    ;
}

/// What kind of node it is stands in the fourth hexadecimal digit of its mode: 2
/// for a character device and 6 for a block device.
pub proof fn the_fourth_digit_tells_the_kind(mode: u32)
    ensures
        (mode / 0x1000) % 16 == 2 ==> node_kind(mode) == "char"@,
        (mode / 0x1000) % 16 == 6 ==> node_kind(mode) == "block"@,
        (mode / 0x1000) % 16 != 2 && (mode / 0x1000) % 16 != 6 ==> node_kind(mode) == "other"@,
{
    assert((mode & 0xf000 == 0x2000u32 <==> (mode / 0x1000) % 16 == 2) && (mode & 0xf000
        == 0x6000u32 <==> (mode / 0x1000) % 16 == 6)) by (bit_vector);
}

/// The trees come in one line, each in brackets with commas between what is in
/// it.
pub proof fn a_snapshot_is_laid_out_so(
    ib: Seq<Seq<char>>,
    verbs: Seq<Seq<char>>,
    nodes: Seq<Seq<char>>,
    a: Seq<char>,
    b: Seq<char>,
    c: Seq<char>,
)
    ensures
        snapshot_text(seq![a], seq![b], seq![c]) == "ib_devices=["@ + a + "] uverbs=["@ + b
            + "] chardevs=["@ + c + "]"@,
        snapshot_text(seq![], seq![], seq![]) == "ib_devices=[] uverbs=[] chardevs=[]"@,
        forall|i: int|
            0 <= i < ib.len() ==> has_part(snapshot_text(ib, verbs, nodes), #[trigger] ib[i]),
        forall|i: int|
            0 <= i < verbs.len() ==> has_part(snapshot_text(ib, verbs, nodes), #[trigger] verbs[i]),
        forall|i: int|
            0 <= i < nodes.len() ==> has_part(snapshot_text(ib, verbs, nodes), #[trigger] nodes[i]),
{
    let comma = ", "@;
    joining_puts_a_separator_between(seq![a], seq![a], comma);
    joining_puts_a_separator_between(seq![b], seq![b], comma);
    joining_puts_a_separator_between(seq![c], seq![c], comma);
    assert(seq![seq![a][0]] =~= seq![a] && seq![seq![b][0]] =~= seq![b] && seq![seq![c][0]] =~= seq![
        c,
    ]);
    reveal_strlit("ib_devices=[");
    reveal_strlit("] uverbs=[");
    reveal_strlit("] chardevs=[");
    reveal_strlit("]");
    reveal_strlit("ib_devices=[] uverbs=[] chardevs=[]");
    assert(snapshot_text(seq![], seq![], seq![]) =~= "ib_devices=[] uverbs=[] chardevs=[]"@);
    let all = snapshot_text(ib, verbs, nodes);
    let (i, v, n) = (joined(ib, comma), joined(verbs, comma), joined(nodes, comma));
    let first = "ib_devices=["@;
    let second = first + i + "] uverbs=["@;
    let third = second + v + "] chardevs=["@;
    assert forall|k: int| 0 <= k < ib.len() implies has_part(all, #[trigger] ib[k]) by {
        joining_keeps_every_text(ib, comma, k);
        let rest = "] uverbs=["@ + v + "] chardevs=["@ + n + "]"@;
        lemma_part_of_more(first, i, rest, ib[k]);
        assert(first + i + rest =~= all);
    }
    assert forall|k: int| 0 <= k < verbs.len() implies has_part(all, #[trigger] verbs[k]) by {
        joining_keeps_every_text(verbs, comma, k);
        let rest = "] chardevs=["@ + n + "]"@;
        lemma_part_of_more(second, v, rest, verbs[k]);
        assert(second + v + rest =~= all);
    }
    assert forall|k: int| 0 <= k < nodes.len() implies has_part(all, #[trigger] nodes[k]) by {
        joining_keeps_every_text(nodes, comma, k);
        lemma_part_of_more(third, n, "]"@, nodes[k]);
        assert(third + n + "]"@ =~= all);
    }
}

/// A line with a word on it.
pub open spec fn is_line(reply: Reply, word: Seq<char>) -> bool {
    is_trim(word) && told_text(reply->Text_0) == Ok::<Seq<char>, Told>(word + seq!['\n'])
}

proof fn lemma_line(reply: Reply, word: Seq<char>)
    requires
        is_line(reply, word),
    ensures
        text_or_empty(told_text(reply->Text_0)) == word,
{
    trimming_takes_off_what_is_around(seq![], word, seq!['\n']);
    assert(seq![] + word + seq!['\n'] =~= word + seq!['\n']);
}

/// A listed InfiniBand device is shown with the address that its link ends in,
/// its node type and its firmware version.
pub proof fn an_infiniband_device_is_shown(
    tree: Tree,
    dirs: (Seq<char>, Seq<char>, Seq<char>),
    entry: EntryState,
    dir: Seq<char>,
    bdf: Seq<char>,
    node_type: Seq<char>,
    fw: Seq<char>,
)
    requires
        entries_in(tree(Request::ListDir(dirs.0))).contains(entry),
        told_text(tree(Request::ReadEntryLink(dirs.0, entry.raw, "device"@))->Text_0) == Ok::<
            Seq<char>,
            Told,
        >(dir + seq!['/'] + bdf),
        is_plain_component(bdf),
        is_line(tree(Request::ReadEntryText(dirs.0, entry.raw, "node_type"@)), node_type),
        is_line(tree(Request::ReadEntryText(dirs.0, entry.raw, "fw_ver"@)), fw),
    ensures
        has_part(
            snapshot_in(tree, dirs),
            entry.name + "=[bdf="@ + bdf + ",node_type="@ + debug_quoted(node_type) + ",fw="@ + fw
                + "]"@,
        ),
{
    let entries = entries_in(tree(Request::ListDir(dirs.0)));
    let i = choose|i: int| 0 <= i < entries.len() && entries[i] == entry;
    let ib = ibs_in(tree, dirs.0, entries);
    a_path_ends_in_its_last_entry(dir, bdf);
    lemma_line(tree(Request::ReadEntryText(dirs.0, entry.raw, "node_type"@)), node_type);
    lemma_line(tree(Request::ReadEntryText(dirs.0, entry.raw, "fw_ver"@)), fw);
    a_snapshot_is_laid_out_so(
        ib,
        verbs_in(tree, dirs.1, only_verbs(entries_in(tree(Request::ListDir(dirs.1))))),
        nodes_in(tree, dirs.2, entries_in(tree(Request::ListDir(dirs.2)))),
        bdf,
        bdf,
        bdf,
    );
    assert(ib[i] == entry.name + "=[bdf="@ + bdf + ",node_type="@ + debug_quoted(node_type)
        + ",fw="@ + fw + "]"@);
}

/// A listed verbs device is shown with the InfiniBand device that it belongs to
/// and its device number.
pub proof fn a_verbs_device_is_shown(
    tree: Tree,
    dirs: (Seq<char>, Seq<char>, Seq<char>),
    entry: EntryState,
    ibdev: Seq<char>,
    dev: Seq<char>,
)
    requires
        entries_in(tree(Request::ListDir(dirs.1))).contains(entry),
        entry.name.len() >= 6,
        entry.name.take(6) == "uverbs"@,
        is_line(tree(Request::ReadEntryText(dirs.1, entry.raw, "ibdev"@)), ibdev),
        is_line(tree(Request::ReadEntryText(dirs.1, entry.raw, "dev"@)), dev),
    ensures
        has_part(
            snapshot_in(tree, dirs),
            entry.name + "=[ibdev="@ + ibdev + ",dev="@ + dev + "]"@,
        ),
{
    let entries = entries_in(tree(Request::ListDir(dirs.1)));
    let kept = only_verbs(entries);
    verbs_devices_are_all_there(entries);
    let k = choose|k: int| 0 <= k < entries.len() && entries[k] == entry;
    assert(kept.contains(entries[k]));
    let i = choose|i: int| 0 <= i < kept.len() && kept[i] == entry;
    let verbs = verbs_in(tree, dirs.1, kept);
    lemma_line(tree(Request::ReadEntryText(dirs.1, entry.raw, "ibdev"@)), ibdev);
    lemma_line(tree(Request::ReadEntryText(dirs.1, entry.raw, "dev"@)), dev);
    a_snapshot_is_laid_out_so(
        ibs_in(tree, dirs.0, entries_in(tree(Request::ListDir(dirs.0)))),
        verbs,
        nodes_in(tree, dirs.2, entries_in(tree(Request::ListDir(dirs.2)))),
        dev,
        dev,
        dev,
    );
    assert(verbs[i] == entry.name + "=[ibdev="@ + ibdev + ",dev="@ + dev + "]"@);
}

proof fn lemma_node_shown(
    tree: Tree,
    dir: Seq<char>,
    entries: Seq<EntryState>,
    i: int,
    mode: u32,
    rdev: u64,
) -> (k: int)
    requires
        0 <= i < entries.len(),
        tree(Request::StatEntry(dir, entries[i].raw))->Node_0 == Ok::<(u32, u64), IoError>(
            (mode, rdev),
        ),
    ensures
        0 <= k < nodes_in(tree, dir, entries).len(),
        nodes_in(tree, dir, entries)[k] == node_part(entries[i].name, mode, rdev),
    decreases entries.len(),
{
    let before = nodes_in(tree, dir, entries.drop_last());
    if i < entries.len() - 1 {
        assert(entries.drop_last()[i] == entries[i]);
        let k = lemma_node_shown(tree, dir, entries.drop_last(), i, mode, rdev);
        assert(nodes_in(tree, dir, entries)[k] == before[k]);
        k
    } else {
        before.len() as int
    }
}

/// A listed device node is shown with its kind and its two numbers.
pub proof fn a_device_node_is_shown(
    tree: Tree,
    dirs: (Seq<char>, Seq<char>, Seq<char>),
    entry: EntryState,
    mode: u32,
    major: u32,
    minor: u32,
)
    requires
        entries_in(tree(Request::ListDir(dirs.2))).contains(entry),
        (mode / 0x1000) % 16 == 2,
        tree(Request::StatEntry(dirs.2, entry.raw))->Node_0 == Ok::<(u32, u64), IoError>(
            (
                mode,
                ((major as u64 & 0xffff_f000) << 32) | ((minor as u64 & 0xffff_ff00) << 12) | ((
                major as u64 & 0xfff) << 8) | (minor as u64 & 0xff),
            ),
        ),
    ensures
        has_part(
            snapshot_in(tree, dirs),
            entry.name + "=["@ + "char"@ + ","@ + decimal(major as int) + ":"@ + decimal(
                minor as int,
            ) + "]"@,
        ),
{
    let rdev = ((major as u64 & 0xffff_f000) << 32) | ((minor as u64 & 0xffff_ff00) << 12) | ((
    major as u64 & 0xfff) << 8) | (minor as u64 & 0xff);
    let entries = entries_in(tree(Request::ListDir(dirs.2)));
    let i = choose|i: int| 0 <= i < entries.len() && entries[i] == entry;
    let nodes = nodes_in(tree, dirs.2, entries);
    a_device_number_is_two_numbers(major, minor);
    the_fourth_digit_tells_the_kind(mode);
    let k = lemma_node_shown(tree, dirs.2, entries, i, mode, rdev);
    a_snapshot_is_laid_out_so(
        ibs_in(tree, dirs.0, entries_in(tree(Request::ListDir(dirs.0)))),
        verbs_in(tree, dirs.1, only_verbs(entries_in(tree(Request::ListDir(dirs.1))))),
        nodes,
        seq![],
        seq![],
        seq![],
    );
    assert(has_part(snapshot_in(tree, dirs), nodes[k]));
}

/// The device nodes are looked for below `/dev`.
pub proof fn the_nodes_are_below_dev()
    ensures
        INFINIBAND_DEV_DIR@ == "/dev/infiniband"@,
{
}

/// Every entry of a directory that can be read is among those shown, and a
/// directory that cannot be listed shows none.
pub proof fn every_readable_entry_is_taken(listing: Reply, entry: EntryState)
    ensures
        told_listing(listing->Names_0) matches Ok(entries) ==> (entries_in(listing).contains(entry)
            <==> entries.contains(Ok::<EntryState, Told>(entry))),
        told_listing(listing->Names_0) is Err ==> entries_in(listing).len() == 0,
{
    if let Ok(entries) = told_listing(listing->Names_0) {
        readable_keeps_everything_read(entries, seq![]);
        assert(readable(entries).contains(entry) <==> entries.contains(
            Ok::<EntryState, Told>(entry),
        ));
    }
}

/// A device whose link or attributes cannot be read is still shown, with an
/// address of `<none>` and nothing for the others.
pub proof fn what_cannot_be_read_is_shown_so(
    name: Seq<char>,
    link: Reply,
    other: Reply,
    more: Reply,
)
    requires
        told_text(link->Text_0) is Err || entry_name(told_text(link->Text_0)->Ok_0) is None,
        told_text(other->Text_0) is Err,
        told_text(more->Text_0) is Err,
    ensures
        ib_part(name, link, other, more) == name + "=[bdf=<none>,node_type="@ + debug_quoted(
            seq![],
        ) + ",fw=]"@,
        verbs_part(name, other, more) == name + "=[ibdev=,dev=]"@,
{
    let none = Seq::<char>::empty();
    let q = debug_quoted(none);
    assert("=[bdf="@ + "<none>"@ + ",node_type="@ =~= "=[bdf=<none>,node_type="@) by {
        reveal_strlit("=[bdf=");
        reveal_strlit("<none>");
        reveal_strlit(",node_type=");
        reveal_strlit("=[bdf=<none>,node_type=");
    }
    assert(",fw="@ + none + "]"@ =~= ",fw=]"@) by {
        reveal_strlit(",fw=");
        reveal_strlit("]");
        reveal_strlit(",fw=]");
    }
    assert("=[ibdev="@ + none + ",dev="@ + none + "]"@ =~= "=[ibdev=,dev=]"@) by {
        reveal_strlit("=[ibdev=");
        reveal_strlit(",dev=");
        reveal_strlit("]");
        reveal_strlit("=[ibdev=,dev=]");
    }
    assert(name + "=[bdf="@ + "<none>"@ + ",node_type="@ + q + ",fw="@ + none + "]"@ =~= name + (
    "=[bdf="@ + "<none>"@ + ",node_type="@) + q + (",fw="@ + none + "]"@));
    assert(name + "=[ibdev="@ + none + ",dev="@ + none + "]"@ =~= name + ("=[ibdev="@ + none
        + ",dev="@ + none + "]"@));
}

/// Each entry is shown once, in its place; a device node that has gone is left
/// out, and nothing else is.
pub proof fn each_entry_is_shown_once(
    tree: Tree,
    dir: Seq<char>,
    entries: Seq<EntryState>,
    replies: Seq<Reply>,
    start: int,
    n: int,
)
    requires
        0 <= n < entries.len(),
    ensures
        ib_parts(entries, replies).len() == entries.len(),
        verbs_parts(entries, replies, start).len() == entries.len(),
        nodes_in(tree, dir, entries.take(n + 1)) == nodes_in(tree, dir, entries.take(n)) + (
        match tree(Request::StatEntry(dir, entries[n].raw))->Node_0 {
            Ok((mode, rdev)) => seq![node_part(entries[n].name, mode, rdev)],
            Err(_) => seq![],
        }),
        nodes_in(tree, dir, entries.take(0)) == Seq::<Seq<char>>::empty(),
{
    lemma_parts_are_as_many(entries, replies, start);
    assert(entries.take(n + 1).drop_last() =~= entries.take(n));
    assert(nodes_in(tree, dir, entries.take(n + 1)) =~= nodes_in(tree, dir, entries.take(n)) + (
    match tree(Request::StatEntry(dir, entries[n].raw))->Node_0 {
        Ok((mode, rdev)) => seq![node_part(entries[n].name, mode, rdev)],
        Err(_) => seq![],
    }));
}

proof fn lemma_parts_are_as_many(entries: Seq<EntryState>, replies: Seq<Reply>, start: int)
    ensures
        ib_parts(entries, replies).len() == entries.len(),
        verbs_parts(entries, replies, start).len() == entries.len(),
    decreases entries.len(),
{
    if entries.len() > 0 {
        lemma_parts_are_as_many(entries.drop_last(), replies, start);
    }
}

} // verus!
