//! Binding a PCI function to a vfio driver, and taking it back.
//!
//! Runtime state only: nothing here survives a reboot.
//!
//! Everything goes through `driver_override` rather than a driver's own
//! `bind`, because the variant drivers match on nothing else.

use vstd::prelude::*;

use crate::bdf::{canonical, normalize_bdf};
use crate::driver::DRIVER_VFIO_PCI_TYPE;
use crate::inquiry::{requests, Inquest, Inquiry};
use crate::kernel::{
    context, failed, link_in, told, told_name, told_names, told_text, told_unit, ErrorKind,
    IoError, Op, Procedure, Reply, Request, Step, Told, Tree,
};
use crate::listing::{copy_error, told_entries, Entries};
use crate::number::{
    a_padded_number_has_its_width, digit_char, digits, hex_upper, lemma_numeral_chars, padded,
    power, push_hex_upper, zeros,
};
use crate::path::{
    a_path_ends_in_its_last_entry, entry_name, file_name, is_plain_component, join, joined_path,
};
use crate::pci_dev::{not_an_address, refuse_address, some_text};
use crate::sysfs::{
    bus_pci_dir, device_dir, devices_dir, module_dir, the_bus_is_laid_out_so, Sysfs,
};
use crate::text::{
    a_prefix_is_taken_off, after_prefix, cat, chars, contains, debug_quoted, fields, find_last_word,
    glue, has_part, is_space, last_word, quote, same_text, split, strip_prefix, text,
    the_last_word_ends_a_text, views,
};

verus! {

#[derive(Clone, Copy, Debug, PartialEq, Eq, Structural)]
pub enum Bound {
    Already,
    Now,
}

/// A device's directory and the name to write into the control files under
/// `bus/pci`, which look a device up by the name it registered under: the
/// canonical address, not whichever spelling of it got us here.
pub fn resolve(sysfs: &Sysfs, address: &str) -> (r: Result<(String, String), IoError>)
    ensures
        match r {
            Ok((device, name)) => {
                &&& canonical(address@) == Some(name@)
                &&& device_dir(sysfs.root(), address@) == Some(device@)
            },
            Err(err) => canonical(address@) is None && told(err) == not_an_address(address@),
        },
{
    match normalize_bdf(address) {
        Some(name) => Ok((join(&sysfs.devices(), &name), name)),
        None => Err(refuse_address(address)),
    }
}

/// The name that a device's control files go by is the one its directory has.
pub proof fn a_device_is_named_by_its_directory(root: Seq<char>, address: Seq<char>)
    requires
        canonical(address) is Some,
    ensures
        entry_name(device_dir(root, address)->0) == canonical(address),
        device_dir(root, canonical(address)->0) == device_dir(root, address),
{
    crate::bdf::canonical_is_one_plain_component(address);
    crate::bdf::canonical_is_canonical(address);
    crate::path::component_stays_below(devices_dir(root), canonical(address)->0);
}

// --- Reading the driver ------------------------------------------------------

/// The driver that a device's link leads to.
pub open spec fn linked_driver(link: Result<Seq<char>, Told>) -> Option<Seq<char>> {
    match link {
        Ok(target) => entry_name(target),
        Err(_) => None,
    }
}

fn driver_of(link: &Reply) -> (r: Option<String>)
    requires
        link is Text,
    ensures
        some_text(r) == linked_driver(told_text(link->Text_0)),
{
    match link {
        Reply::Text(Ok(target)) => file_name(target),
        _ => None,
    }
}

/// Which driver holds a device.
#[derive(Debug)]
pub struct DriverLink {
    link: String,
}

impl DriverLink {
    pub closed spec fn link(&self) -> Seq<char> {
        self.link@
    }
}

impl Inquiry for DriverLink {
    type Output = Option<String>;

    open spec fn asks(&self) -> Seq<Request> {
        seq![Request::ReadLink(self.link())]
    }

    open spec fn concludes(&self, replies: Seq<Reply>, output: Option<String>) -> bool {
        some_text(output) == linked_driver(told_text(replies[0]->Text_0))
    }

    proof fn asks_questions(&self) {
    }

    fn questions(&self) -> (ops: Vec<Op>) {
        let mut ops: Vec<Op> = Vec::new();
        ops.push(Op::ReadLink(self.link.clone()));
        assert(requests(ops@) =~= self.asks());
        ops
    }

    fn conclude(self, replies: Vec<Reply>) -> (output: Option<String>) {
        assert(replies@[0].answers(self.asks()[0]));
        driver_of(&replies[0])
    }
}

/// The driver that holds the device at an address; what is no address has
/// none.
pub fn current_driver(sysfs: &Sysfs, address: &str) -> (r: Step<
    Inquest<DriverLink>,
    Option<String>,
>)
    ensures
        match r {
            Step::Next(inquest) => {
                &&& device_dir(sysfs.root(), address@) matches Some(device)
                    && inquest.inquiry().link() == joined_path(device, "driver"@)
                &&& inquest.replies() == Seq::<Reply>::empty()
                &&& inquest.well_formed()
            },
            Step::Done(driver) => driver is None && canonical(address@) is None,
        },
{
    match sysfs.device(address) {
        Some(device) => {
            let link: DriverLink = DriverLink { link: join(&device, "driver") };
            Step::Next(Inquest::ask(link))
        },
        None => Step::Done(None),
    }
}

/// Whether a device is bound to a driver.
#[derive(Debug)]
pub struct BoundCheck {
    address: String,
    driver: String,
    link: String,
}

impl BoundCheck {
    pub closed spec fn address(&self) -> Seq<char> {
        self.address@
    }

    pub closed spec fn driver(&self) -> Seq<char> {
        self.driver@
    }

    pub closed spec fn link(&self) -> Seq<char> {
        self.link@
    }
}

/// What is said of a device that should be bound to `driver`, given the one
/// that holds it.
pub open spec fn bound_verdict(
    address: Seq<char>,
    driver: Seq<char>,
    current: Option<Seq<char>>,
) -> Result<(), Told> {
    match current {
        Some(current) => if current == driver {
            Ok(())
        } else {
            Err(
                (
                    ErrorKind::Other,
                    address + ": bound to "@ + debug_quoted(current) + ", expected "@ + driver,
                ),
            )
        },
        None => Err((ErrorKind::Other, address + ": still unbound after probe"@)),
    }
}

fn judge(address: &str, driver: &str, current: Option<String>) -> (r: Result<(), IoError>)
    ensures
        told_unit(r) == bound_verdict(address@, driver@, some_text(current)),
{
    match current {
        Some(current) => if same_text(&current, driver) {
            Ok(())
        } else {
            let mut message: String = glue(address, ": bound to ", &quote(&current));
            message.append(", expected ");
            message.append(driver);
            Err(failed(ErrorKind::Other, message))
        },
        None => Err(failed(ErrorKind::Other, cat(address, ": still unbound after probe"))),
    }
}

impl Inquiry for BoundCheck {
    type Output = Result<(), IoError>;

    open spec fn asks(&self) -> Seq<Request> {
        seq![Request::ReadLink(self.link())]
    }

    open spec fn concludes(&self, replies: Seq<Reply>, output: Result<(), IoError>) -> bool {
        told_unit(output) == bound_verdict(
            self.address(),
            self.driver(),
            linked_driver(told_text(replies[0]->Text_0)),
        )
    }

    proof fn asks_questions(&self) {
    }

    fn questions(&self) -> (ops: Vec<Op>) {
        let mut ops: Vec<Op> = Vec::new();
        ops.push(Op::ReadLink(self.link.clone()));
        assert(requests(ops@) =~= self.asks());
        ops
    }

    fn conclude(self, replies: Vec<Reply>) -> (output: Result<(), IoError>) {
        assert(replies@[0].answers(self.asks()[0]));
        judge(&self.address, &self.driver, driver_of(&replies[0]))
    }
}

pub fn verify_bound(sysfs: &Sysfs, address: &str, driver: &str) -> (r: Step<
    Inquest<BoundCheck>,
    Result<(), IoError>,
>)
    ensures
        match r {
            Step::Next(inquest) => {
                &&& device_dir(sysfs.root(), address@) matches Some(device)
                    && inquest.inquiry().link() == joined_path(device, "driver"@)
                &&& inquest.inquiry().address() == address@
                &&& inquest.inquiry().driver() == driver@
                &&& inquest.replies() == Seq::<Reply>::empty()
                &&& inquest.well_formed()
            },
            Step::Done(verdict) => {
                &&& canonical(address@) is None
                &&& told_unit(verdict) == bound_verdict(address@, driver@, None)
            },
        },
{
    match sysfs.device(address) {
        Some(device) => {
            let check: BoundCheck = BoundCheck {
                address: address.to_string(),
                driver: driver.to_string(),
                link: join(&device, "driver"),
            };
            Step::Next(Inquest::ask(check))
        },
        None => Step::Done(judge(address, driver, None)),
    }
}

// --- Binding -----------------------------------------------------------------

/// How far a binding has come.
#[derive(Clone, Copy, Debug, PartialEq, Eq, Structural)]
pub enum BindPhase {
    /// Looking whether the device is there.
    Finding,
    /// Looking whether a driver holds it.
    Holding,
    /// Setting its override.
    Overriding,
    /// Triggering the probe.
    Probing,
    /// Taking the override back, the probe having failed.
    Clearing,
}

/// The binding of a device to a driver.
#[derive(Debug)]
pub struct Bind {
    device: String,
    address: String,
    driver: String,
    probe: String,
    phase: BindPhase,
    error: Option<IoError>,
}

pub struct BindState {
    /// The device's directory.
    pub device: Seq<char>,
    /// Its canonical address.
    pub address: Seq<char>,
    /// The driver to bind it to.
    pub driver: Seq<char>,
    /// The file that triggers a probe.
    pub probe: Seq<char>,
    pub phase: BindPhase,
    /// Why it failed, once it has.
    pub error: Option<Told>,
}

impl View for Bind {
    type V = BindState;

    closed spec fn view(&self) -> BindState {
        BindState {
            device: self.device@,
            address: self.address@,
            driver: self.driver@,
            probe: self.probe@,
            phase: self.phase,
            error: match self.error {
                Some(err) => Some(told(err)),
                None => None,
            },
        }
    }
}

/// The file that says which driver a device is for.
pub open spec fn override_path(device: Seq<char>) -> Seq<char> {
    joined_path(device, "driver_override"@)
}

/// The kernel rejects an empty write; a newline is how it spells "none".
pub open spec fn no_override() -> Seq<char> {
    "\n"@
}

/// The file that triggers a probe.
pub open spec fn probe_path(root: Seq<char>) -> Seq<char> {
    joined_path(bus_pci_dir(root), "drivers_probe"@)
}

/// The binding of the device at an address to a driver, about to start.
pub open spec fn binding(root: Seq<char>, address: Seq<char>, driver: Seq<char>) -> BindState {
    BindState {
        device: device_dir(root, address)->0,
        address: canonical(address)->0,
        driver,
        probe: probe_path(root),
        phase: BindPhase::Finding,
        error: None,
    }
}

impl BindState {
    pub open spec fn well_formed(self) -> bool {
        self.phase == BindPhase::Clearing ==> self.error is Some
    }

    pub open spec fn request(self) -> Request {
        match self.phase {
            BindPhase::Finding => Request::IsDir(self.device),
            BindPhase::Holding => Request::ReadLink(joined_path(self.device, "driver"@)),
            BindPhase::Overriding => Request::WriteText(override_path(self.device), self.driver),
            BindPhase::Probing => Request::WriteText(self.probe, self.address),
            BindPhase::Clearing => Request::WriteText(override_path(self.device), no_override()),
        }
    }

    pub open spec fn to(self, phase: BindPhase) -> Step<BindState, Result<Bound, Told>> {
        Step::Next(BindState { phase, ..self })
    }

    /// Where it goes, given the driver that holds the device.
    pub open spec fn held_by(self, current: Option<Seq<char>>) -> Step<
        BindState,
        Result<Bound, Told>,
    > {
        match current {
            Some(current) => if current == self.driver {
                Step::Done(Ok(Bound::Already))
            } else {
                Step::Done(
                    Err(
                        (
                            ErrorKind::ResourceBusy,
                            self.address + ": held by driver "@ + debug_quoted(current)
                                + ", refusing to take it"@,
                        ),
                    ),
                )
            },
            None => self.to(BindPhase::Overriding),
        }
    }

    pub open spec fn after(self, reply: Reply) -> Step<BindState, Result<Bound, Told>> {
        match self.phase {
            BindPhase::Finding => if reply->Flag_0 {
                self.to(BindPhase::Holding)
            } else {
                Step::Done(
                    Err(
                        (
                            ErrorKind::NotFound,
                            self.address + ": no such PCI device under "@ + self.device,
                        ),
                    ),
                )
            },
            BindPhase::Holding => self.held_by(linked_driver(told_text(reply->Text_0))),
            BindPhase::Overriding => match told_unit(reply->Unit_0) {
                Ok(()) => self.to(BindPhase::Probing),
                Err((kind, message)) => Step::Done(
                    Err(
                        (
                            kind,
                            self.address + ": set driver_override to "@ + self.driver + ": "@
                                + message,
                        ),
                    ),
                ),
            },
            BindPhase::Probing => match told_unit(reply->Unit_0) {
                Ok(()) => Step::Done(Ok(Bound::Now)),
                Err((kind, message)) => Step::Next(
                    BindState {
                        phase: BindPhase::Clearing,
                        error: Some(
                            (kind, self.address + ": trigger driver probe"@ + ": "@ + message),
                        ),
                        ..self
                    },
                ),
            },
            BindPhase::Clearing => Step::Done(Err(self.error->0)),
        }
    }
}

pub open spec fn bind_end(r: Result<Bound, IoError>) -> Result<Bound, Told> {
    match r {
        Ok(bound) => Ok(bound),
        Err(err) => Err(told(err)),
    }
}

pub open spec fn bind_step(step: Step<Bind, Result<Bound, IoError>>) -> Step<
    BindState,
    Result<Bound, Told>,
> {
    match step {
        Step::Next(bind) => Step::Next(bind@),
        Step::Done(r) => Step::Done(bind_end(r)),
    }
}

/// Refuses a device another driver holds rather than stealing it; unbind
/// first if that is what you want.
///
/// Binding is asynchronous, so the write is not read back; see
/// [`verify_bound`].
pub fn bind(sysfs: &Sysfs, address: &str, driver: &str) -> (r: Result<Bind, IoError>)
    ensures
        match r {
            Ok(bind) => {
                &&& canonical(address@) is Some
                &&& bind@ == binding(sysfs.root(), address@, driver@)
                &&& bind.well_formed()
            },
            Err(err) => canonical(address@) is None && told(err) == not_an_address(address@),
        },
{
    match resolve(sysfs, address) {
        Ok((device, address)) => Ok(
            Bind {
                device,
                address,
                driver: driver.to_string(),
                probe: sysfs.drivers_probe(),
                phase: BindPhase::Finding,
                error: None,
            },
        ),
        Err(err) => Err(err),
    }
}

impl Bind {
    fn to(self, phase: BindPhase) -> (step: Step<Bind, Result<Bound, IoError>>)
        requires
            phase != BindPhase::Clearing,
        ensures
            bind_step(step) == self@.to(phase),
            step matches Step::Next(next) ==> next@.well_formed(),
    {
        Step::Next(Bind { phase, ..self })
    }

    fn held_by(self, current: Option<String>) -> (step: Step<Bind, Result<Bound, IoError>>)
        ensures
            bind_step(step) == self@.held_by(some_text(current)),
            step matches Step::Next(next) ==> next@.well_formed(),
    {
        match current {
            Some(current) => if same_text(&current, &self.driver) {
                Step::Done(Ok(Bound::Already))
            } else {
                let mut message: String = glue(
                    &self.address,
                    ": held by driver ",
                    &quote(&current),
                );
                message.append(", refusing to take it");
                Step::Done(Err(failed(ErrorKind::ResourceBusy, message)))
            },
            None => self.to(BindPhase::Overriding),
        }
    }
}

impl Procedure for Bind {
    type Output = Result<Bound, IoError>;

    open spec fn well_formed(&self) -> bool {
        self@.well_formed()
    }

    open spec fn request(&self) -> Request {
        self@.request()
    }

    fn op(&self) -> (op: Op) {
        let ghost _now = (self.well_formed(), self.request());
        let device: &str = self.device.as_str();
        match self.phase {
            BindPhase::Finding => Op::IsDir(self.device.clone()),
            BindPhase::Holding => Op::ReadLink(join(device, "driver")),
            BindPhase::Overriding => Op::WriteText(
                join(device, "driver_override"),
                self.driver.clone(),
            ),
            BindPhase::Probing => Op::WriteText(self.probe.clone(), self.address.clone()),
            BindPhase::Clearing => Op::WriteText(
                join(device, "driver_override"),
                "\n".to_string(),
            ),
        }
    }

    fn resume(self, reply: Reply) -> (step: Step<Self, Self::Output>)
        ensures
            bind_step(step) == self@.after(reply),
    {
        let ghost _now = (self.well_formed(), self.request());
        match (self.phase, reply) {
            (BindPhase::Finding, Reply::Flag(found)) => if found {
                self.to(BindPhase::Holding)
            } else {
                let message: String = glue(
                    &self.address,
                    ": no such PCI device under ",
                    &self.device,
                );
                Step::Done(Err(failed(ErrorKind::NotFound, message)))
            },
            (BindPhase::Holding, reply) => {
                let current: Option<String> = driver_of(&reply);
                self.held_by(current)
            },
            (BindPhase::Overriding, Reply::Unit(done)) => match done {
                Ok(()) => self.to(BindPhase::Probing),
                Err(err) => {
                    let what: String = glue(
                        &self.address,
                        ": set driver_override to ",
                        &self.driver,
                    );
                    Step::Done(Err(context(err, &what)))
                },
            },
            (BindPhase::Probing, Reply::Unit(done)) => match done {
                Ok(()) => Step::Done(Ok(Bound::Now)),
                Err(err) => {
                    let what: String = cat(&self.address, ": trigger driver probe");
                    Step::Next(
                        Bind {
                            phase: BindPhase::Clearing,
                            error: Some(context(err, &what)),
                            ..self
                        },
                    )
                },
            },
            (_, _) => match self.error {
                Some(err) => Step::Done(Err(err)),
                None => Step::Done(Ok(Bound::Already)),
            },
        }
    }
}

/// A device that another driver holds is refused without a write, and one that
/// the driver asked for holds is left as it is.
pub proof fn a_held_device_is_not_written_to(bind: BindState, reply: Reply)
    requires
        bind.phase == BindPhase::Finding || bind.phase == BindPhase::Holding,
    ensures
        !(bind.request() is WriteText),
        bind.phase == BindPhase::Holding && linked_driver(told_text(reply->Text_0)) is Some
            ==> bind.after(reply) is Done,
        bind.after(reply) matches Step::Next(next) ==> next.phase == BindPhase::Holding || (
        next.phase == BindPhase::Overriding && linked_driver(told_text(reply->Text_0)) is None),
{
}

/// A binding that has set an override ends in success, or right after taking
/// the override back: none outlives a failure, where the next probe, at the
/// latest the next boot, would bind a device this said it had not.
pub proof fn a_refused_bind_takes_its_override_back(bind: BindState, reply: Reply)
    requires
        bind.phase == BindPhase::Probing || bind.phase == BindPhase::Clearing,
    ensures
        match bind.after(reply) {
            Step::Next(next) => next.phase == BindPhase::Clearing && next.device == bind.device,
            Step::Done(Ok(bound)) => bound == Bound::Now,
            Step::Done(Err(_)) => bind.request() == Request::WriteText(
                override_path(bind.device),
                no_override(),
            ),
        },
{
}

/// How many phases a binding has left at most.
pub open spec fn bind_left(phase: BindPhase) -> nat {
    match phase {
        BindPhase::Finding => 4,
        BindPhase::Holding => 3,
        BindPhase::Overriding => 2,
        BindPhase::Probing => 1,
        BindPhase::Clearing => 0,
    }
}

/// All that a binding asks of a tree that answers, first to last, and what it
/// comes to.
pub open spec fn bind_run(bind: BindState, tree: Tree) -> (Seq<Request>, Result<Bound, Told>)
    decreases bind_left(bind.phase),
{
    let request = bind.request();
    match bind.after(tree(request)) {
        Step::Done(end) => (seq![request], end),
        Step::Next(next) => if bind_left(next.phase) < bind_left(bind.phase) {
            let (more, end) = bind_run(next, tree);
            (seq![request] + more, end)
        } else {
            (seq![request], Ok(Bound::Already))
        },
    }
}

/// What of some requests is written, and where.
pub open spec fn writes(requests: Seq<Request>) -> Seq<(Seq<char>, Seq<char>)>
    decreases requests.len(),
{
    if requests.len() == 0 {
        seq![]
    } else {
        let before = writes(requests.drop_last());
        match requests.last() {
            Request::WriteText(path, content) => before.push((path, content)),
            _ => before,
        }
    }
}

/// Whether a device is there and no driver holds it.
pub open spec fn is_unbound(device: Seq<char>, tree: Tree) -> bool {
    &&& tree(Request::IsDir(device))->Flag_0
    &&& linked_driver(link_in(tree, joined_path(device, "driver"@))) is None
}

/// What a write comes to in a tree.
pub open spec fn write_in(tree: Tree, path: Seq<char>, content: Seq<char>) -> Result<(), Told> {
    told_unit(tree(Request::WriteText(path, content))->Unit_0)
}

/// An unbound device whose two writes go through is bound: its override is
/// given the driver, the probe its canonical address, and nothing else is
/// written.
pub proof fn an_unbound_device_is_bound(
    root: Seq<char>,
    address: Seq<char>,
    driver: Seq<char>,
    tree: Tree,
)
    requires
        canonical(address) is Some,
        ({
            let device = device_dir(root, address)->0;
            &&& is_unbound(device, tree)
            &&& write_in(tree, override_path(device), driver) is Ok
            &&& write_in(tree, probe_path(root), canonical(address)->0) is Ok
        }),
    ensures
        ({
            let device = device_dir(root, address)->0;
            let (asked, end) = bind_run(binding(root, address, driver), tree);
            &&& end == Ok::<Bound, Told>(Bound::Now)
            &&& writes(asked) == seq![
                (override_path(device), driver),
                (probe_path(root), canonical(address)->0),
            ]
        }),
{
    let bind = binding(root, address, driver);
    reveal_with_fuel(bind_run, 4);
    reveal_with_fuel(writes, 5);
    let asked = bind_run(bind, tree).0;
    assert(asked =~= seq![
        Request::IsDir(bind.device),
        Request::ReadLink(joined_path(bind.device, "driver"@)),
        Request::WriteText(override_path(bind.device), driver),
        Request::WriteText(bind.probe, bind.address),
    ]);
    let three = asked.drop_last();
    let two = three.drop_last();
    assert(three.last() == asked[2] && two.last() == asked[1]);
    assert(two.drop_last().drop_last() =~= seq![]);
    assert(two.drop_last().last() == asked[0]);
}

/// An unbound device whose probe is refused ends without an override: it is
/// taken back last, and the refusal is what is told.
pub proof fn a_refused_probe_leaves_no_override(
    root: Seq<char>,
    address: Seq<char>,
    driver: Seq<char>,
    tree: Tree,
)
    requires
        canonical(address) is Some,
        ({
            let device = device_dir(root, address)->0;
            &&& is_unbound(device, tree)
            &&& write_in(tree, override_path(device), driver) is Ok
            &&& write_in(tree, probe_path(root), canonical(address)->0) is Err
        }),
    ensures
        ({
            let device = device_dir(root, address)->0;
            let bdf = canonical(address)->0;
            let (kind, message) = write_in(tree, probe_path(root), bdf)->Err_0;
            let (asked, end) = bind_run(binding(root, address, driver), tree);
            &&& end == Err::<Bound, Told>((kind, bdf + ": trigger driver probe"@ + ": "@ + message))
            &&& writes(asked) == seq![
                (override_path(device), driver),
                (probe_path(root), bdf),
                (override_path(device), no_override()),
            ]
        }),
{
    let bind = binding(root, address, driver);
    reveal_with_fuel(bind_run, 5);
    reveal_with_fuel(writes, 6);
    let asked = bind_run(bind, tree).0;
    assert(asked =~= seq![
        Request::IsDir(bind.device),
        Request::ReadLink(joined_path(bind.device, "driver"@)),
        Request::WriteText(override_path(bind.device), driver),
        Request::WriteText(bind.probe, bind.address),
        Request::WriteText(override_path(bind.device), no_override()),
    ]);
    let four = asked.drop_last();
    let three = four.drop_last();
    let two = three.drop_last();
    assert(four.last() == asked[3] && three.last() == asked[2] && two.last() == asked[1]);
    assert(two.drop_last().drop_last() =~= seq![]);
    assert(two.drop_last().last() == asked[0]);
}

/// A device that is not there, or that a driver holds, is not written to at
/// all.
pub proof fn a_missing_or_held_device_is_left_alone(
    root: Seq<char>,
    address: Seq<char>,
    driver: Seq<char>,
    tree: Tree,
)
    requires
        canonical(address) is Some,
        !is_unbound(device_dir(root, address)->0, tree),
    ensures
        ({
            let (asked, end) = bind_run(binding(root, address, driver), tree);
            let held = linked_driver(
                link_in(tree, joined_path(device_dir(root, address)->0, "driver"@)),
            );
            &&& writes(asked) == Seq::<(Seq<char>, Seq<char>)>::empty()
            &&& end == Ok::<Bound, Told>(Bound::Already) <==> tree(
                Request::IsDir(device_dir(root, address)->0),
            )->Flag_0 && held == Some(driver)
            &&& end is Ok ==> end == Ok::<Bound, Told>(Bound::Already)
        }),
{
    let bind = binding(root, address, driver);
    reveal_with_fuel(bind_run, 2);
    reveal_with_fuel(writes, 3);
    let asked = bind_run(bind, tree).0;
    assert(asked[0] == Request::IsDir(bind.device));
    if tree(Request::IsDir(bind.device))->Flag_0 {
        assert(asked =~= seq![asked[0], Request::ReadLink(joined_path(bind.device, "driver"@))]);
        assert(asked.drop_last() =~= seq![asked[0]]);
        assert(asked.drop_last().drop_last() =~= seq![]);
    } else {
        assert(asked =~= seq![asked[0]]);
        assert(asked.drop_last() =~= seq![]);
    }
}

// --- Unbinding ---------------------------------------------------------------

/// How far an unbinding has come.
#[derive(Clone, Copy, Debug, PartialEq, Eq, Structural)]
pub enum UnbindPhase {
    /// Looking whether a driver holds the device.
    Holding,
    /// Taking the device from it.
    Releasing,
    /// Clearing the override.
    Clearing,
}

/// The taking of a device from its driver.
#[derive(Debug)]
pub struct Unbind {
    device: String,
    address: String,
    phase: UnbindPhase,
}

pub struct UnbindState {
    pub device: Seq<char>,
    pub address: Seq<char>,
    pub phase: UnbindPhase,
}

impl View for Unbind {
    type V = UnbindState;

    closed spec fn view(&self) -> UnbindState {
        UnbindState { device: self.device@, address: self.address@, phase: self.phase }
    }
}

impl UnbindState {
    pub open spec fn request(self) -> Request {
        let driver = joined_path(self.device, "driver"@);
        match self.phase {
            UnbindPhase::Holding => Request::ReadLink(driver),
            UnbindPhase::Releasing => Request::WriteText(
                joined_path(driver, "unbind"@),
                self.address,
            ),
            UnbindPhase::Clearing => Request::WriteText(override_path(self.device), no_override()),
        }
    }

    pub open spec fn to(self, phase: UnbindPhase) -> Step<UnbindState, Result<(), Told>> {
        Step::Next(UnbindState { phase, ..self })
    }

    pub open spec fn after(self, reply: Reply) -> Step<UnbindState, Result<(), Told>> {
        match self.phase {
            UnbindPhase::Holding => match linked_driver(told_text(reply->Text_0)) {
                Some(_) => self.to(UnbindPhase::Releasing),
                None => self.to(UnbindPhase::Clearing),
            },
            UnbindPhase::Releasing => match told_unit(reply->Unit_0) {
                Ok(()) => self.to(UnbindPhase::Clearing),
                Err((kind, message)) => Step::Done(
                    Err((kind, self.address + ": unbind"@ + ": "@ + message)),
                ),
            },
            UnbindPhase::Clearing => match told_unit(reply->Unit_0) {
                Ok(()) => Step::Done(Ok(())),
                Err((kind, message)) => Step::Done(
                    Err((kind, self.address + ": clear driver_override"@ + ": "@ + message)),
                ),
            },
        }
    }
}

pub open spec fn unbind_step(step: Step<Unbind, Result<(), IoError>>) -> Step<
    UnbindState,
    Result<(), Told>,
> {
    match step {
        Step::Next(unbind) => Step::Next(unbind@),
        Step::Done(r) => Step::Done(told_unit(r)),
    }
}

/// Clears the override too, so the next probe matches as it would on an
/// unprovisioned node.
pub fn unbind(sysfs: &Sysfs, address: &str) -> (r: Result<Unbind, IoError>)
    ensures
        match r {
            Ok(unbind) => {
                &&& canonical(address@) is Some
                &&& unbind@ == UnbindState {
                    device: device_dir(sysfs.root(), address@)->0,
                    address: canonical(address@)->0,
                    phase: UnbindPhase::Holding,
                }
                &&& unbind.well_formed()
            },
            Err(err) => canonical(address@) is None && told(err) == not_an_address(address@),
        },
{
    match resolve(sysfs, address) {
        Ok((device, address)) => Ok(Unbind { device, address, phase: UnbindPhase::Holding }),
        Err(err) => Err(err),
    }
}

impl Procedure for Unbind {
    type Output = Result<(), IoError>;

    open spec fn well_formed(&self) -> bool {
        true
    }

    open spec fn request(&self) -> Request {
        self@.request()
    }

    fn op(&self) -> (op: Op) {
        let ghost _now = (self.well_formed(), self.request());
        let driver: String = join(&self.device, "driver");
        match self.phase {
            UnbindPhase::Holding => Op::ReadLink(driver),
            UnbindPhase::Releasing => Op::WriteText(join(&driver, "unbind"), self.address.clone()),
            UnbindPhase::Clearing => Op::WriteText(
                join(&self.device, "driver_override"),
                "\n".to_string(),
            ),
        }
    }

    fn resume(self, reply: Reply) -> (step: Step<Self, Self::Output>)
        ensures
            unbind_step(step) == self@.after(reply),
    {
        let ghost _now = (self.well_formed(), self.request());
        match (self.phase, reply) {
            (UnbindPhase::Holding, reply) => if driver_of(&reply).is_some() {
                Step::Next(Unbind { phase: UnbindPhase::Releasing, ..self })
            } else {
                Step::Next(Unbind { phase: UnbindPhase::Clearing, ..self })
            },
            (UnbindPhase::Releasing, Reply::Unit(Err(err))) => {
                let what: String = cat(&self.address, ": unbind");
                Step::Done(Err(context(err, &what)))
            },
            (UnbindPhase::Releasing, _) => Step::Next(
                Unbind { phase: UnbindPhase::Clearing, ..self },
            ),
            (UnbindPhase::Clearing, Reply::Unit(Err(err))) => {
                let what: String = cat(&self.address, ": clear driver_override");
                Step::Done(Err(context(err, &what)))
            },
            (UnbindPhase::Clearing, _) => Step::Done(Ok(())),
        }
    }
}

/// An unbinding that goes through has written "none" to the override last.
pub proof fn unbinding_clears_the_override(unbind: UnbindState, reply: Reply)
    ensures
        unbind.after(reply) == Step::<UnbindState, Result<(), Told>>::Done(Ok(()))
            ==> unbind.request() == Request::WriteText(
            override_path(unbind.device),
            no_override(),
        ),
        unbind.after(reply) matches Step::Next(next) ==> next.device == unbind.device
            && next.address == unbind.address,
{
}

// --- Which driver ------------------------------------------------------------

/// What the kernel's alias table calls a device, before the rest of the line.
pub open spec fn alias_of(vendor: u16, device: u16) -> Seq<char> {
    "vfio_pci:v"@ + hex_upper(vendor as int, 8) + "d"@ + hex_upper(device as int, 8)
}

/// The first line that has a part.
pub open spec fn first_line_with(lines: Seq<Seq<char>>, part: Seq<char>) -> Option<Seq<char>>
    decreases lines.len(),
{
    if lines.len() == 0 {
        None
    } else if has_part(lines[0], part) {
        Some(lines[0])
    } else {
        first_line_with(lines.drop_first(), part)
    }
}

/// The module that an alias table has for a device.
pub open spec fn module_in(table: Seq<char>, vendor: u16, device: u16) -> Seq<char> {
    match first_line_with(fields(table, '\n'), alias_of(vendor, device)) {
        Some(line) => last_word(line),
        None => DRIVER_VFIO_PCI_TYPE@,
    }
}

fn find_module(table: &str, vendor: u16, device: u16) -> (r: String)
    ensures
        r@ == module_in(table@, vendor, device),
{
    let mut alias: String = String::new();
    alias.append("vfio_pci:v");
    push_hex_upper(&mut alias, vendor as u64, 8);
    alias.append("d");
    push_hex_upper(&mut alias, device as u64, 8);
    assert(alias@ =~= alias_of(vendor, device));
    let alias: Vec<char> = chars(&alias);
    let lines: Vec<Vec<char>> = split(&chars(table), '\n');
    let ghost all = views(lines@);
    let mut i: usize = 0;
    assert(all.skip(0) =~= all);
    while i < lines.len()
        invariant
            i <= lines.len(),
            all == views(lines@),
            all == fields(table@, '\n'),
            alias@ == alias_of(vendor, device),
            first_line_with(all, alias@) == first_line_with(all.skip(i as int), alias@),
        decreases lines.len() - i,
    {
        proof {
            assert(all.skip(i as int).drop_first() =~= all.skip(i + 1));
            assert(all.skip(i as int)[0] == lines@[i as int]@);
        }
        if contains(&lines[i], &alias) {
            return text(find_last_word(&lines[i]));
        }
        i = i + 1;
    }
    DRIVER_VFIO_PCI_TYPE.to_string()
}

/// Which module the alias table has for a device.
#[derive(Debug)]
pub struct AliasTable {
    path: String,
    vendor: u16,
    device: u16,
}

impl AliasTable {
    pub closed spec fn path(&self) -> Seq<char> {
        self.path@
    }

    pub closed spec fn ids(&self) -> (u16, u16) {
        (self.vendor, self.device)
    }
}

impl Inquiry for AliasTable {
    type Output = Result<String, IoError>;

    open spec fn asks(&self) -> Seq<Request> {
        seq![Request::ReadText(self.path())]
    }

    open spec fn concludes(&self, replies: Seq<Reply>, output: Result<String, IoError>) -> bool {
        told_text(output) == match told_text(replies[0]->Text_0) {
            Ok(table) => Ok(module_in(table, self.ids().0, self.ids().1)),
            Err((kind, message)) => Err((kind, "read "@ + self.path() + ": "@ + message)),
        }
    }

    proof fn asks_questions(&self) {
    }

    fn questions(&self) -> (ops: Vec<Op>) {
        let mut ops: Vec<Op> = Vec::new();
        ops.push(Op::ReadText(self.path.clone()));
        assert(requests(ops@) =~= self.asks());
        ops
    }

    fn conclude(self, replies: Vec<Reply>) -> (output: Result<String, IoError>) {
        assert(replies@[0].answers(self.asks()[0]));
        match &replies[0] {
            Reply::Text(Ok(table)) => Ok(find_module(table, self.vendor, self.device)),
            Reply::Text(Err(err)) => Err(context(copy_error(err), &cat("read ", &self.path))),
            _ => Ok(String::new()),
        }
    }
}

/// The vfio module for a device, from the kernel's own alias table.
///
/// A variant driver (`nvgrace_gpu_vfio_pci` on Grace, `mlx5_vfio_pci`)
/// registers a `vfio_pci:` alias for exactly the devices it supports. Those
/// aliases are `override_only`: the driver never matches through normal PCI
/// probing, so nothing but this table says which module a device wants, and
/// no list of device ids here could stay correct as the kernel adds them.
/// No alias means plain `vfio-pci`, which takes whatever it is given.
pub fn module_for(modules_alias: &str, vendor: u16, device: u16) -> (r: Inquest<AliasTable>)
    ensures
        r.inquiry().path() == modules_alias@,
        r.inquiry().ids() == (vendor, device),
        r.replies() == Seq::<Reply>::empty(),
        r.well_formed(),
{
    let table: AliasTable = AliasTable { path: modules_alias.to_string(), vendor, device };
    Inquest::ask(table)
}

/// The first PCI driver among some entries, up to one that cannot be read.
pub open spec fn first_pci_driver(entries: Seq<Result<Seq<char>, Told>>) -> Result<
    Option<Seq<char>>,
    Told,
>
    decreases entries.len(),
{
    if entries.len() == 0 {
        Ok(None)
    } else {
        match entries[0] {
            Err(err) => Err(err),
            Ok(name) => match after_prefix(name, "pci:"@) {
                Some(driver) => Ok(Some(driver)),
                None => first_pci_driver(entries.drop_first()),
            },
        }
    }
}

fn find_pci_driver(entries: &Entries) -> (r: Result<Option<String>, IoError>)
    ensures
        match r {
            Ok(driver) => first_pci_driver(told_entries(*entries)) == Ok::<Option<Seq<char>>, Told>(
                some_text(driver),
            ),
            Err(err) => first_pci_driver(told_entries(*entries)) == Err::<Option<Seq<char>>, Told>(
                told(err),
            ),
        },
{
    let ghost all = told_entries(*entries);
    let mut i: usize = 0;
    assert(all.skip(0) =~= all);
    while i < entries.len()
        invariant
            i <= entries.len(),
            all == told_entries(*entries),
            first_pci_driver(all) == first_pci_driver(all.skip(i as int)),
        decreases entries.len() - i,
    {
        proof {
            assert(all.skip(i as int).drop_first() =~= all.skip(i + 1));
            assert(all.skip(i as int)[0] == told_name(entries@[i as int]));
        }
        match &entries[i] {
            Ok(entry) => {
                let name: Vec<char> = chars(&entry.name);
                if let Some(driver) = strip_prefix(&name, "pci:") {
                    return Ok(Some(text(driver)));
                }
            },
            Err(err) => {
                return Err(copy_error(err));
            },
        }
        i = i + 1;
    }
    Ok(None)
}

/// Which PCI driver a module registers.
#[derive(Debug)]
pub struct ModuleDrivers {
    module: String,
    drivers: String,
}

impl ModuleDrivers {
    /// The module as it was asked for.
    pub closed spec fn name(&self) -> Seq<char> {
        self.module@
    }

    /// Where it lists its drivers.
    pub closed spec fn drivers(&self) -> Seq<char> {
        self.drivers@
    }
}

/// What a module's list of drivers comes to.
pub open spec fn registered_driver(
    name: Seq<char>,
    drivers: Seq<char>,
    listing: Result<Seq<Result<Seq<char>, Told>>, Told>,
) -> Result<Seq<char>, Told> {
    match listing {
        Err((kind, message)) => Err(
            (kind, "read "@ + drivers + " (is "@ + name + " loaded?)"@ + ": "@ + message),
        ),
        Ok(entries) => match first_pci_driver(entries) {
            Err(err) => Err(err),
            Ok(Some(driver)) => Ok(driver),
            Ok(None) => Err(
                (ErrorKind::NotFound, "module "@ + name + " registers no PCI driver"@),
            ),
        },
    }
}

impl Inquiry for ModuleDrivers {
    type Output = Result<String, IoError>;

    open spec fn asks(&self) -> Seq<Request> {
        seq![Request::ListDir(self.drivers())]
    }

    open spec fn concludes(&self, replies: Seq<Reply>, output: Result<String, IoError>) -> bool {
        told_text(output) == registered_driver(
            self.name(),
            self.drivers(),
            told_names(replies[0]->Names_0),
        )
    }

    proof fn asks_questions(&self) {
    }

    fn questions(&self) -> (ops: Vec<Op>) {
        let mut ops: Vec<Op> = Vec::new();
        ops.push(Op::ListDir(self.drivers.clone()));
        assert(requests(ops@) =~= self.asks());
        ops
    }

    fn conclude(self, replies: Vec<Reply>) -> (output: Result<String, IoError>) {
        assert(replies@[0].answers(self.asks()[0]));
        match &replies[0] {
            Reply::Names(Ok(entries)) => match find_pci_driver(entries) {
                Ok(Some(driver)) => Ok(driver),
                Ok(None) => Err(
                    failed(
                        ErrorKind::NotFound,
                        glue("module ", &self.module, " registers no PCI driver"),
                    ),
                ),
                Err(err) => Err(err),
            },
            Reply::Names(Err(err)) => {
                let mut what: String = glue("read ", &self.drivers, " (is ");
                what.append(&self.module);
                what.append(" loaded?)");
                Err(context(copy_error(err), &what))
            },
            _ => Ok(String::new()),
        }
    }
}

/// The PCI driver a loaded module implements. Not the module's own name:
/// modprobe wants `vfio_pci` where `driver_override` wants `vfio-pci`, and
/// only the module knows which is which. The two happen to be identical for
/// `nvgrace_gpu_vfio_pci`, which is why guessing at the punctuation cannot
/// be relied on either way.
pub fn driver_for(sysfs: &Sysfs, module: &str) -> (r: Result<Inquest<ModuleDrivers>, IoError>)
    ensures
        match r {
            Ok(inquest) => {
                &&& module_dir(sysfs.root(), module@) matches Some(dir)
                    && inquest.inquiry().drivers() == joined_path(dir, "drivers"@)
                &&& inquest.inquiry().name() == module@
                &&& inquest.replies() == Seq::<Reply>::empty()
                &&& inquest.well_formed()
            },
            Err(err) => {
                &&& module_dir(sysfs.root(), module@) is None
                &&& told(err) == (
                    ErrorKind::InvalidInput,
                    debug_quoted(module@) + " is not a module name"@,
                )
            },
        },
{
    match sysfs.module(module) {
        Some(dir) => {
            let drivers: ModuleDrivers = ModuleDrivers {
                module: module.to_string(),
                drivers: join(&dir, "drivers"),
            };
            Ok(Inquest::ask(drivers))
        },
        None => Err(
            failed(ErrorKind::InvalidInput, cat(&quote(module), " is not a module name")),
        ),
    }
}

// --- What the alias table says -----------------------------------------------

/// The digits of hexadecimal numbers in capitals.
pub open spec fn is_capital_hex(s: Seq<char>) -> bool {
    forall|i: int|
        0 <= i < s.len() ==> '0' <= #[trigger] s[i] && s[i] <= '9' || 'A' <= s[i] && s[i] <= 'F'
}

/// The number that such digits stand for.
pub open spec fn hex_value(s: Seq<char>) -> int
    decreases s.len(),
{
    if s.len() == 0 {
        0
    } else {
        16 * hex_value(s.drop_last()) + (if s.last() <= '9' {
            s.last() as int - 48
        } else {
            s.last() as int - 55
        })
    }
}

/// A line of the alias table for one PCI part: the vendor and the device by
/// eight digits each, what else it matches, and the module.
pub ghost struct AliasLine {
    pub vendor: Seq<char>,
    pub device: Seq<char>,
    pub rest: Seq<char>,
    pub module: Seq<char>,
}

impl AliasLine {
    pub open spec fn well_formed(self) -> bool {
        &&& self.vendor.len() == 8
        &&& self.device.len() == 8
        &&& is_capital_hex(self.vendor)
        &&& is_capital_hex(self.device)
        &&& !self.rest.contains(':')
        &&& self.module.len() > 0
        &&& !self.module.contains(':')
        &&& forall|i: int| 0 <= i < self.module.len() ==> !is_space(#[trigger] self.module[i])
    }

    /// The line as the table has it.
    pub open spec fn spelled(self) -> Seq<char> {
        "alias vfio_pci:v"@ + self.vendor + "d"@ + self.device + self.rest + " "@ + self.module
    }

    /// Whether it is the line of a part.
    pub open spec fn is_for(self, vendor: u16, device: u16) -> bool {
        hex_value(self.vendor) == vendor && hex_value(self.device) == device
    }
}

proof fn lemma_hex_value_of_zeros(n: int, s: Seq<char>)
    ensures
        hex_value(zeros(n) + s) == hex_value(s),
    decreases s.len(), n,
{
    let z = zeros(n);
    if s.len() > 0 {
        assert((z + s).drop_last() =~= z + s.drop_last());
        lemma_hex_value_of_zeros(n, s.drop_last());
    } else if n > 0 {
        assert(z + s =~= z);
        assert(z.drop_last() =~= zeros(n - 1) + s);
        lemma_hex_value_of_zeros(n - 1, s);
    } else {
        assert(z + s =~= s);
    }
}

proof fn lemma_hex_value_of_digits(value: nat)
    ensures
        hex_value(digits(value, 16, true)) == value,
    decreases value,
{
    let d = digits(value, 16, true);
    if value < 16 {
        assert(d.drop_last() =~= seq![]);
        assert(hex_value(d.drop_last()) == 0);
        assert(d.last() == digit_char(value as int, true));
    } else {
        lemma_hex_value_of_digits(value / 16);
        assert(d.drop_last() =~= digits(value / 16, 16, true));
        assert(d.last() == digit_char((value % 16) as int, true));
    }
}

/// Eight digits spell each number of sixteen bits in one way.
proof fn lemma_eight_digits(value: u16)
    ensures
        hex_upper(value as int, 8).len() == 8,
        is_capital_hex(hex_upper(value as int, 8)),
        hex_value(hex_upper(value as int, 8)) == value,
{
    let d = digits(value as nat, 16, true);
    let s = hex_upper(value as int, 8);
    assert(power(16, 8) == 0x1_0000_0000) by {
        reveal_with_fuel(power, 9);
    }
    a_padded_number_has_its_width(value as nat, 8);
    lemma_numeral_chars(value as nat, 8, 16, true);
    lemma_hex_value_of_digits(value as nat);
    lemma_hex_value_of_zeros(8 - d.len(), d);
    assert forall|i: int| 0 <= i < s.len() implies '0' <= #[trigger] s[i] && s[i] <= '9' || 'A'
        <= s[i] && s[i] <= 'F' by {
        let c = padded(d, 8)[i] as int;
        assert(48 <= c <= 57 || 65 <= c <= 70);
    }
}

proof fn lemma_hex_value_tells_apart(a: Seq<char>, b: Seq<char>)
    requires
        a.len() == b.len(),
        is_capital_hex(a),
        is_capital_hex(b),
        hex_value(a) == hex_value(b),
    ensures
        a == b,
    decreases a.len(),
{
    if a.len() > 0 {
        let (x, y) = (a.drop_last(), b.drop_last());
        assert(is_capital_hex(x)) by {
            assert forall|i: int| 0 <= i < x.len() implies '0' <= #[trigger] x[i] && x[i] <= '9'
                || 'A' <= x[i] && x[i] <= 'F' by {
                assert(x[i] == a[i]);
            }
        }
        assert(is_capital_hex(y)) by {
            assert forall|i: int| 0 <= i < y.len() implies '0' <= #[trigger] y[i] && y[i] <= '9'
                || 'A' <= y[i] && y[i] <= 'F' by {
                assert(y[i] == b[i]);
            }
        }
        let (p, q) = (a[a.len() - 1], b[b.len() - 1]);
        lemma_hex_value_tells_apart(x, y);
        assert(a =~= x.push(p));
        assert(b =~= y.push(q));
    } else {
        assert(a =~= b);
    }
}

/// A line of the alias table holds the alias of a part exactly where the two
/// numbers that it spells are the vendor and the device of the part, and its
/// last word is its module.
pub proof fn an_alias_is_of_one_part(line: AliasLine, vendor: u16, device: u16)
    requires
        line.well_formed(),
    ensures
        has_part(line.spelled(), alias_of(vendor, device)) <==> line.is_for(vendor, device),
        last_word(line.spelled()) == line.module,
{
    let s = line.spelled();
    let alias = alias_of(vendor, device);
    let (v, d) = (hex_upper(vendor as int, 8), hex_upper(device as int, 8));
    reveal_strlit("alias vfio_pci:v");
    reveal_strlit("vfio_pci:v");
    reveal_strlit("d");
    reveal_strlit(" ");
    lemma_eight_digits(vendor);
    lemma_eight_digits(device);
    assert(alias.len() == 27 && alias[8] == ':');
    assert(alias.subrange(10, 18) =~= v);
    assert(alias.subrange(19, 27) =~= d);
    assert(s.subrange(16, 24) =~= line.vendor);
    assert(s.subrange(25, 33) =~= line.device);
    let head = s.subrange(6, 33);
    assert(head =~= "vfio_pci:v"@ + line.vendor + "d"@ + line.device);
    assert forall|k: int| 0 <= k < s.len() && #[trigger] s[k] == ':' implies k == 14 by {
        let n = line.rest.len();
        if k < 16 {
            assert(s[k] == "alias vfio_pci:v"@[k]);
        } else if k < 24 {
            assert(s[k] == line.vendor[k - 16]);
        } else if k == 24 {
        } else if k < 33 {
            assert(s[k] == line.device[k - 25]);
        } else if k < 33 + n {
            assert(s[k] == line.rest[k - 33]);
        } else if k > 33 + n {
            assert(s[k] == line.module[k - 34 - n]);
        }
    }
    if has_part(s, alias) {
        let i = choose|i: int|
            0 <= i <= s.len() - alias.len() && #[trigger] s.subrange(i, i + alias.len()) == alias;
        assert(s[i + 8] == s.subrange(i, i + alias.len())[8]);
        assert(i == 6);
        assert(head == alias);
        assert(alias.subrange(10, 18) =~= line.vendor);
        assert(alias.subrange(19, 27) =~= line.device);
    }
    if line.is_for(vendor, device) {
        lemma_hex_value_tells_apart(v, line.vendor);
        lemma_hex_value_tells_apart(d, line.device);
        assert(head =~= alias);
        assert(s.subrange(6, 6 + alias.len() as int) == alias);
    }
    let front = "alias vfio_pci:v"@ + line.vendor + "d"@ + line.device + line.rest + " "@;
    assert(front.last() == ' ');
    the_last_word_ends_a_text(front, line.module, seq![]);
    assert(front + line.module + seq![] =~= s);
}

/// Whether a table has these lines of parts, and other lines that are of none.
pub open spec fn has_lines(table: Seq<char>, lines: Seq<Option<AliasLine>>) -> bool {
    &&& fields(table, '\n').len() == lines.len()
    &&& forall|i: int|
        0 <= i < lines.len() ==> match #[trigger] lines[i] {
            Some(line) => line.well_formed() && fields(table, '\n')[i] == line.spelled(),
            None => !has_part(fields(table, '\n')[i], "vfio_pci:v"@),
        }
}

proof fn lemma_no_alias(s: Seq<char>, vendor: u16, device: u16)
    requires
        !has_part(s, "vfio_pci:v"@),
    ensures
        !has_part(s, alias_of(vendor, device)),
{
    let start = "vfio_pci:v"@;
    let alias = alias_of(vendor, device);
    if has_part(s, alias) {
        let i = choose|i: int|
            0 <= i <= s.len() - alias.len() && #[trigger] s.subrange(i, i + alias.len()) == alias;
        assert(alias.take(start.len() as int) =~= start);
        assert(s.subrange(i, i + start.len()) =~= alias.take(start.len() as int)) by {
            assert forall|k: int| 0 <= k < start.len() implies s.subrange(i, i + start.len())[k]
                == alias[k] by {
                assert(s.subrange(i, i + alias.len())[k] == alias[k]);
            }
        }
    }
}

proof fn lemma_first_line(lines: Seq<Seq<char>>, part: Seq<char>, i: int)
    requires
        0 <= i <= lines.len(),
        forall|j: int| 0 <= j < i ==> !has_part(#[trigger] lines[j], part),
        i < lines.len() ==> has_part(lines[i], part),
    ensures
        first_line_with(lines, part) == (if i < lines.len() {
            Some(lines[i])
        } else {
            None
        }),
    decreases lines.len(),
{
    if i > 0 {
        assert(!has_part(lines[0], part));
        let on = lines.drop_first();
        assert forall|j: int| 0 <= j < i - 1 implies !has_part(#[trigger] on[j], part) by {
            assert(on[j] == lines[j + 1]);
        }
        lemma_first_line(on, part, i - 1);
    }
}

/// The module for a part is that of the first line whose numbers are its vendor
/// and its device, and `vfio-pci` where no line has them.
pub proof fn a_module_is_that_of_the_part(
    table: Seq<char>,
    lines: Seq<Option<AliasLine>>,
    vendor: u16,
    device: u16,
    i: int,
)
    requires
        has_lines(table, lines),
        0 <= i <= lines.len(),
        forall|j: int|
            0 <= j < i && (#[trigger] lines[j]) is Some ==> !lines[j]->0.is_for(vendor, device),
        i < lines.len() ==> lines[i] is Some && lines[i]->0.is_for(vendor, device),
    ensures
        module_in(table, vendor, device) == (if i < lines.len() {
            lines[i]->0.module
        } else {
            "vfio-pci"@
        }),
{
    let spelled = fields(table, '\n');
    let alias = alias_of(vendor, device);
    assert forall|j: int| 0 <= j < i implies !has_part(#[trigger] spelled[j], alias) by {
        match lines[j] {
            Some(line) => an_alias_is_of_one_part(line, vendor, device),
            None => lemma_no_alias(spelled[j], vendor, device),
        }
    }
    if i < lines.len() {
        an_alias_is_of_one_part(lines[i]->0, vendor, device);
    }
    lemma_first_line(spelled, alias, i);
}

// --- What is written where ---------------------------------------------------

/// Binding and unbinding go through three files: the override below the device,
/// the probe below the bus, and the release below the driver that holds it.
pub proof fn the_control_files_are_these(root: Seq<char>, device: Seq<char>)
    requires
        root.len() > 0,
        root.last() != '/',
        device.len() > 0,
        device.last() != '/',
    ensures
        override_path(device) == device + "/driver_override"@,
        probe_path(root) == root + "/bus/pci/drivers_probe"@,
        joined_path(device, "driver"@) == device + "/driver"@,
        joined_path(joined_path(device, "driver"@), "unbind"@) == device + "/driver/unbind"@,
        no_override() == seq!['\n'],
{
    reveal_strlit("driver_override");
    reveal_strlit("/driver_override");
    reveal_strlit("driver");
    reveal_strlit("/driver");
    reveal_strlit("unbind");
    reveal_strlit("/driver/unbind");
    reveal_strlit("\n");
    the_bus_is_laid_out_so(root, seq![]);
    assert(joined_path(device, "driver"@) =~= device + "/driver"@);
}

/// The driver that holds a device is what its link ends in; a link that cannot
/// be read is that of a device that none holds.
pub proof fn a_link_names_the_driver(path: Seq<char>, name: Seq<char>, fault: Told)
    requires
        is_plain_component(name),
    ensures
        linked_driver(Ok(path + seq!['/'] + name)) == Some(name),
        linked_driver(Err(fault)) is None,
{
    a_path_ends_in_its_last_entry(path, name);
}

/// A device is judged bound exactly where the driver that holds it is the one
/// expected.
pub proof fn a_device_is_bound_to_the_driver_expected(
    address: Seq<char>,
    driver: Seq<char>,
    current: Option<Seq<char>>,
)
    ensures
        bound_verdict(address, driver, current) is Ok <==> current == Some(driver),
        bound_verdict(address, driver, current) matches Err(err) ==> err.0 == ErrorKind::Other,
{
}

/// How many phases an unbinding has left at most.
pub open spec fn unbind_left(phase: UnbindPhase) -> nat {
    match phase {
        UnbindPhase::Holding => 2,
        UnbindPhase::Releasing => 1,
        UnbindPhase::Clearing => 0,
    }
}

/// All that an unbinding asks of a tree that answers, first to last, and what it
/// comes to.
pub open spec fn unbind_run(unbind: UnbindState, tree: Tree) -> (Seq<Request>, Result<(), Told>)
    decreases unbind_left(unbind.phase),
{
    let request = unbind.request();
    match unbind.after(tree(request)) {
        Step::Done(end) => (seq![request], end),
        Step::Next(next) => {
            let (more, end) = unbind_run(next, tree);
            (seq![request] + more, end)
        },
    }
}

/// A device that a driver holds is first taken from it, and its override is
/// then cleared; one that none holds has its override cleared and nothing else
/// written. Where the first is refused, the second is not tried.
pub proof fn unbinding_releases_and_clears(device: Seq<char>, address: Seq<char>, tree: Tree)
    requires
        device.len() > 0,
        device.last() != '/',
    ensures
        ({
            let start = UnbindState { device, address, phase: UnbindPhase::Holding };
            let (asked, end) = unbind_run(start, tree);
            let held = linked_driver(link_in(tree, device + "/driver"@)) is Some;
            let release = (device + "/driver/unbind"@, address);
            let clear = (device + "/driver_override"@, seq!['\n']);
            let refused = held && write_in(tree, release.0, release.1) is Err;
            &&& writes(asked) == if refused {
                seq![release]
            } else if held {
                seq![release, clear]
            } else {
                seq![clear]
            }
            &&& end is Ok <==> !refused && write_in(tree, clear.0, clear.1) is Ok
            &&& refused ==> end == Err::<(), Told>(
                (
                    write_in(tree, release.0, release.1)->Err_0.0,
                    address + ": unbind: "@ + write_in(tree, release.0, release.1)->Err_0.1,
                ),
            )
        }),
{
    let start = UnbindState { device, address, phase: UnbindPhase::Holding };
    let release = UnbindState { device, address, phase: UnbindPhase::Releasing };
    let clear = UnbindState { device, address, phase: UnbindPhase::Clearing };
    the_control_files_are_these(device, device);
    reveal_with_fuel(unbind_run, 3);
    reveal_with_fuel(writes, 4);
    let asked = unbind_run(start, tree).0;
    let all = seq![start.request(), release.request(), clear.request()];
    assert(writes(seq![]) =~= seq![]);
    assert(asked[0] == start.request());
    assert(all.drop_last().drop_last().drop_last() =~= seq![]);
    assert(seq![all[0], all[2]].drop_last().drop_last() =~= seq![]);
    assert(all.take(2).drop_last().drop_last() =~= seq![]);
    if linked_driver(link_in(tree, device + "/driver"@)) is None {
        assert(asked =~= seq![all[0], all[2]]);
        assert(asked.drop_last().last() == all[0]);
    } else if write_in(tree, device + "/driver/unbind"@, address) is Err {
        assert(asked =~= all.take(2));
        assert(asked.drop_last().last() == all[0]);
        let message = write_in(tree, device + "/driver/unbind"@, address)->Err_0.1;
        reveal_strlit(": unbind");
        reveal_strlit(": ");
        reveal_strlit(": unbind: ");
        assert(address + ": unbind"@ + ": "@ + message =~= address + ": unbind: "@ + message);
    } else {
        assert(asked =~= all);
        assert(asked.drop_last().last() == all[1]);
        assert(asked.drop_last().drop_last().last() == all[0]);
    }
}

/// A binding is refused as not found where the device is not there, and as busy
/// where another driver holds it.
pub proof fn a_refused_bind_says_why(
    root: Seq<char>,
    address: Seq<char>,
    driver: Seq<char>,
    tree: Tree,
)
    requires
        canonical(address) is Some,
    ensures
        ({
            let device = device_dir(root, address)->0;
            let name = canonical(address)->0;
            let end = bind_run(binding(root, address, driver), tree).1;
            let held = linked_driver(link_in(tree, joined_path(device, "driver"@)));
            &&& !tree(Request::IsDir(device))->Flag_0 ==> end == Err::<Bound, Told>(
                (ErrorKind::NotFound, name + ": no such PCI device under "@ + device),
            )
            &&& tree(Request::IsDir(device))->Flag_0 && held is Some && held != Some(driver) ==> (end
                matches Err(err) && err.0 == ErrorKind::ResourceBusy)
        }),
{
    reveal_with_fuel(bind_run, 2);
}

proof fn lemma_first_pci_driver(
    names: Seq<Seq<char>>,
    end: Seq<Result<Seq<char>, Told>>,
)
    requires
        forall|i: int|
            0 <= i < names.len() ==> after_prefix(#[trigger] names[i], "pci:"@) is None,
    ensures
        first_pci_driver(
            names.map_values(|name: Seq<char>| Ok::<Seq<char>, Told>(name)) + end,
        ) == first_pci_driver(end),
    decreases names.len(),
{
    let read = names.map_values(|name: Seq<char>| Ok::<Seq<char>, Told>(name));
    if names.len() > 0 {
        let on = names.drop_first();
        assert(after_prefix(names[0], "pci:"@) is None);
        assert forall|i: int| 0 <= i < on.len() implies after_prefix(
            #[trigger] on[i],
            "pci:"@,
        ) is None by {
            assert(on[i] == names[i + 1]);
        }
        lemma_first_pci_driver(on, end);
        assert((read + end)[0] == Ok::<Seq<char>, Told>(names[0]));
        assert((read + end).drop_first() =~= on.map_values(
            |name: Seq<char>| Ok::<Seq<char>, Told>(name),
        ) + end);
    } else {
        assert(read + end =~= end);
    }
}

/// The driver that a module registers is the first one listed under the PCI bus:
/// drivers of other buses before it do not matter, nor does anything after it,
/// and a fault before it does.
pub proof fn a_module_registers_its_first_pci_driver(
    others: Seq<Seq<char>>,
    driver: Seq<char>,
    rest: Seq<Result<Seq<char>, Told>>,
    fault: Told,
    name: Seq<char>,
    drivers: Seq<char>,
)
    requires
        forall|i: int|
            0 <= i < others.len() ==> !((#[trigger] others[i]).len() >= 4 && others[i].take(4)
                == seq!['p', 'c', 'i', ':']),
    ensures
        ({
            let before = others.map_values(|name: Seq<char>| Ok::<Seq<char>, Told>(name));
            let found = before + (seq![Ok::<Seq<char>, Told>(seq!['p', 'c', 'i', ':'] + driver)]
                + rest);
            let broken = before + (seq![Err::<Seq<char>, Told>(fault)] + rest);
            &&& registered_driver(name, drivers, Ok(found)) == Ok::<Seq<char>, Told>(driver)
            &&& registered_driver(name, drivers, Ok(broken)) == Err::<Seq<char>, Told>(fault)
            &&& registered_driver(name, drivers, Ok(before)) == Err::<Seq<char>, Told>(
                (ErrorKind::NotFound, "module "@ + name + " registers no PCI driver"@),
            )
            &&& registered_driver(name, drivers, Err(fault)) matches Err(err) && err.0 == fault.0
        }),
{
    let pci = seq!['p', 'c', 'i', ':'];
    reveal_strlit("pci:");
    assert("pci:"@ =~= pci);
    assert forall|i: int| 0 <= i < others.len() implies after_prefix(
        #[trigger] others[i],
        "pci:"@,
    ) is None by {
        if others[i].len() >= 4 {
            assert(others[i].take(4) != pci);
        }
    }
    let before = others.map_values(|name: Seq<char>| Ok::<Seq<char>, Told>(name));
    let one = seq![Ok::<Seq<char>, Told>(pci + driver)] + rest;
    let bad = seq![Err::<Seq<char>, Told>(fault)] + rest;
    lemma_first_pci_driver(others, one);
    lemma_first_pci_driver(others, bad);
    lemma_first_pci_driver(others, seq![]);
    assert(before + seq![] =~= before);
    a_prefix_is_taken_off(pci, driver, pci);
    assert(one[0] == Ok::<Seq<char>, Told>(pci + driver));
    assert(bad[0] == Err::<Seq<char>, Told>(fault));
}

// --- What failures say -------------------------------------------------------

/// A write that is refused ends a binding with what the kernel said, after what
/// was tried: the override with nothing more written, the probe once the
/// override has been taken back.
pub proof fn a_refused_write_is_told(bind: BindState, fault: IoError, reply: Reply)
    ensures
        ({
            let (kind, message) = (fault.kind, fault.message@);
            let overriding = BindState { phase: BindPhase::Overriding, ..bind };
            let probing = BindState { phase: BindPhase::Probing, ..bind };
            let clearing = BindState {
                phase: BindPhase::Clearing,
                error: Some((kind, bind.address + ": trigger driver probe: "@ + message)),
                ..bind
            };
            &&& overriding.after(Reply::Unit(Err(fault))) == Step::<
                BindState,
                Result<Bound, Told>,
            >::Done(
                Err(
                    (
                        kind,
                        bind.address + ": set driver_override to "@ + bind.driver + ": "@ + message,
                    ),
                ),
            )
            &&& probing.after(Reply::Unit(Err(fault))) == Step::<
                BindState,
                Result<Bound, Told>,
            >::Next(clearing)
            &&& clearing.after(reply) == Step::<BindState, Result<Bound, Told>>::Done(
                Err((kind, bind.address + ": trigger driver probe: "@ + message)),
            )
        }),
{
    let message = fault.message@;
    assert(bind.address + ": trigger driver probe"@ + ": "@ + message =~= bind.address
        + ": trigger driver probe: "@ + message) by {
        reveal_strlit(": trigger driver probe");
        reveal_strlit(": ");
        reveal_strlit(": trigger driver probe: ");
    }
}

/// An override that cannot be cleared fails an unbinding with what the kernel
/// said.
pub proof fn a_kept_override_is_told(unbind: UnbindState, fault: IoError)
    requires
        unbind.phase == UnbindPhase::Clearing,
    ensures
        unbind.after(Reply::Unit(Err(fault))) == Step::<UnbindState, Result<(), Told>>::Done(
            Err((fault.kind, unbind.address + ": clear driver_override: "@ + fault.message@)),
        ),
{
    let message = fault.message@;
    assert(unbind.address + ": clear driver_override"@ + ": "@ + message =~= unbind.address
        + ": clear driver_override: "@ + message) by {
        reveal_strlit(": clear driver_override");
        reveal_strlit(": ");
        reveal_strlit(": clear driver_override: ");
    }
}

/// A device that another driver holds, or none, is told with that driver and the
/// one expected; a module that is not loaded with where it was looked for.
pub proof fn a_wrong_driver_is_told(
    address: Seq<char>,
    driver: Seq<char>,
    other: Seq<char>,
    drivers: Seq<char>,
    fault: Told,
)
    requires
        other != driver,
    ensures
        bound_verdict(address, driver, Some(other)) == Err::<(), Told>(
            (
                ErrorKind::Other,
                address + ": bound to "@ + debug_quoted(other) + ", expected "@ + driver,
            ),
        ),
        bound_verdict(address, driver, None) == Err::<(), Told>(
            (ErrorKind::Other, address + ": still unbound after probe"@),
        ),
        registered_driver(driver, drivers, Err(fault)) == Err::<Seq<char>, Told>(
            (fault.0, "read "@ + drivers + " (is "@ + driver + " loaded?): "@ + fault.1),
        ),
{
    assert("read "@ + drivers + " (is "@ + driver + " loaded?)"@ + ": "@ + fault.1 =~= "read "@
        + drivers + " (is "@ + driver + " loaded?): "@ + fault.1) by {
        reveal_strlit(" loaded?)");
        reveal_strlit(": ");
        reveal_strlit(" loaded?): ");
    }
}

/// A binding to a driver leaves a device alone that another holds, and says which.
pub proof fn a_held_device_is_told(bind: BindState, other: Seq<char>)
    requires
        other != bind.driver,
    ensures
        bind.held_by(Some(bind.driver)) == Step::<BindState, Result<Bound, Told>>::Done(
            Ok(Bound::Already),
        ),
        bind.held_by(Some(other)) == Step::<BindState, Result<Bound, Told>>::Done(
            Err(
                (
                    ErrorKind::ResourceBusy,
                    bind.address + ": held by driver "@ + debug_quoted(other)
                        + ", refusing to take it"@,
                ),
            ),
        ),
        bind.held_by(None) == Step::<BindState, Result<Bound, Told>>::Next(
            BindState { phase: BindPhase::Overriding, ..bind },
        ),
{
}

// --- What the questions come to ----------------------------------------------

/// The driver of a device is what its link ends in, and a check of it goes
/// through exactly where that is the driver expected. One link is read for it.
pub proof fn a_link_answers_for_the_driver(
    question: DriverLink,
    check: BoundCheck,
    reply: Reply,
    dir: Seq<char>,
    name: Seq<char>,
    current: Option<String>,
    verdict: Result<(), IoError>,
)
    requires
        is_plain_component(name),
        told_text(reply->Text_0) == Ok::<Seq<char>, Told>(dir + seq!['/'] + name),
    ensures
        question.asks() == seq![Request::ReadLink(question.link())],
        check.asks() == seq![Request::ReadLink(check.link())],
        question.concludes(seq![reply], current) ==> some_text(current) == Some(name),
        check.concludes(seq![reply], verdict) ==> (verdict is Ok <==> name == check.driver()),
{
    a_link_names_the_driver(dir, name, (ErrorKind::Other, seq![]));
}

/// Where a device has no link to a driver none holds it, and it is not bound.
pub proof fn no_link_is_no_driver(
    question: DriverLink,
    check: BoundCheck,
    reply: Reply,
    current: Option<String>,
    verdict: Result<(), IoError>,
)
    requires
        told_text(reply->Text_0) is Err,
    ensures
        question.concludes(seq![reply], current) ==> current is None,
        check.concludes(seq![reply], verdict) ==> verdict is Err,
{
}

/// The module for a part is looked up in the table that was read, by the vendor
/// and the device that were asked for; a table that cannot be read is told with
/// its path.
pub proof fn the_table_answers_for_the_module(
    question: AliasTable,
    reply: Reply,
    lines: Seq<Option<AliasLine>>,
    i: int,
    output: Result<String, IoError>,
)
    requires
        question.concludes(seq![reply], output),
    ensures
        question.asks() == seq![Request::ReadText(question.path())],
        told_text(reply->Text_0) matches Ok(table) ==> has_lines(table, lines) && 0 <= i
            < lines.len() && (forall|j: int|
            0 <= j < i && (#[trigger] lines[j]) is Some ==> !lines[j]->0.is_for(
                question.ids().0,
                question.ids().1,
            )) && lines[i] is Some && lines[i]->0.is_for(question.ids().0, question.ids().1) ==> (
        output matches Ok(module) && module@ == lines[i]->0.module),
        told_text(reply->Text_0) matches Ok(table) ==> has_lines(table, lines) && (forall|j: int|
            0 <= j < lines.len() && (#[trigger] lines[j]) is Some ==> !lines[j]->0.is_for(
                question.ids().0,
                question.ids().1,
            )) ==> (output matches Ok(module) && module@ == "vfio-pci"@),
        told_text(reply->Text_0) matches Err(fault) ==> told_text(output) == Err::<Seq<char>, Told>(
            (fault.0, "read "@ + question.path() + ": "@ + fault.1),
        ),
{
    let (vendor, device) = question.ids();
    if let Ok(table) = told_text(reply->Text_0) {
        if has_lines(table, lines) {
            if 0 <= i < lines.len() && (forall|j: int|
                0 <= j < i && (#[trigger] lines[j]) is Some ==> !lines[j]->0.is_for(vendor, device))
                && lines[i] is Some && lines[i]->0.is_for(vendor, device) {
                a_module_is_that_of_the_part(table, lines, vendor, device, i);
            }
            if forall|j: int|
                0 <= j < lines.len() && (#[trigger] lines[j]) is Some ==> !lines[j]->0.is_for(
                    vendor,
                    device,
                ) {
                a_module_is_that_of_the_part(table, lines, vendor, device, lines.len() as int);
            }
        }
    }
}

/// The driver of a module is the first that it lists under the PCI bus, drivers
/// of other buses before it aside.
pub proof fn the_listing_answers_for_the_driver(
    question: ModuleDrivers,
    reply: Reply,
    others: Seq<Seq<char>>,
    driver: Seq<char>,
    rest: Seq<Result<Seq<char>, Told>>,
    output: Result<String, IoError>,
)
    requires
        question.concludes(seq![reply], output),
        told_names(reply->Names_0) == Ok::<Seq<Result<Seq<char>, Told>>, Told>(
            others.map_values(|name: Seq<char>| Ok::<Seq<char>, Told>(name)) + (seq![
                Ok::<Seq<char>, Told>(seq!['p', 'c', 'i', ':'] + driver),
            ] + rest),
        ),
        forall|i: int|
            0 <= i < others.len() ==> !((#[trigger] others[i]).len() >= 4 && others[i].take(4)
                == seq!['p', 'c', 'i', ':']),
    ensures
        question.asks() == seq![Request::ListDir(question.drivers())],
        output matches Ok(found) && found@ == driver,
{
    a_module_registers_its_first_pci_driver(
        others,
        driver,
        rest,
        (ErrorKind::Other, seq![]),
        question.name(),
        question.drivers(),
    );
}

/// A binding or an unbinding stands where its state says, and ends in what it
/// hands out.
pub proof fn where_a_binding_stands(bind: Bind, unbind: Unbind, bound: Bound, err: IoError)
    ensures
        bind_step(Step::Next(bind)) == Step::<BindState, Result<Bound, Told>>::Next(bind@),
        bind_step(Step::Done(Ok(bound))) == Step::<BindState, Result<Bound, Told>>::Done(
            Ok(bound),
        ),
        bind_step(Step::Done(Err(err))) == Step::<BindState, Result<Bound, Told>>::Done(
            Err((err.kind, err.message@)),
        ),
        unbind_step(Step::Next(unbind)) == Step::<UnbindState, Result<(), Told>>::Next(unbind@),
        unbind_step(Step::Done(Ok(()))) == Step::<UnbindState, Result<(), Told>>::Done(Ok(())),
        unbind_step(Step::Done(Err(err))) == Step::<UnbindState, Result<(), Told>>::Done(
            Err((err.kind, err.message@)),
        ),
{
}

} // verus!
