//! Opening devices of a kind, one by one or all there are.

use vstd::prelude::*;

use crate::bdf::canonical;
use crate::cc::discover::{Search, Wanted};
use crate::cc::error::{stop_error, stopped, CcError, CcFault, DeviceFault};
use crate::cc::job::script_end;
use crate::cc::script::{count_reads, script_of, Instr, Script, ScriptEnd, ScriptState, Stop};
use crate::inquiry::Survey;
use crate::kernel::{Op, Procedure, Reply, Request, Step, Told};
use crate::pci_dev::{
    closing, opening, not_an_address, CloseDev, CloseState, DevState, OpenDev, OpenState, PciDev,
};
use crate::path::joined_path;
use crate::sysfs::{devices_dir, Sysfs};
use crate::text::texts;

verus! {

/// A kind of device, and how to tell one.
pub trait Kind: Copy {
    /// What is known of a device once it is open.
    type Model: Copy;

    type Device;

    /// Whether a device may be of this kind, going by its ids.
    spec fn identified(vendor: u16, device: u16) -> Result<Self, DeviceFault>;

    /// The program that reads its BOOT_0.
    spec fn code(self) -> Seq<Instr>;

    /// Whether a device is of this kind, going by its BOOT_0.
    spec fn accepted(self, boot0: u32) -> Result<Self::Model, DeviceFault>;

    /// What an open device is made of.
    spec fn parts(device: Self::Device) -> (DevState, Self::Model);

    /// What a search for such devices goes by.
    spec fn wanted() -> Wanted;

    fn identify(vendor: u16, device: u16) -> (r: Result<Self, DeviceFault>)
        ensures
            r == Self::identified(vendor, device),
    ;

    fn program(self) -> (code: Vec<Instr>)
        ensures
            code@ == self.code(),
            code.len() > 0,
            count_reads(code@) == 1,
    ;

    fn accept(self, boot0: u32) -> (r: Result<Self::Model, DeviceFault>)
        ensures
            r == self.accepted(boot0),
    ;

    fn assemble(pci: PciDev, model: Self::Model) -> (device: Self::Device)
        ensures
            Self::parts(device) == (pci@, model),
    ;

    fn release(device: Self::Device) -> (pci: PciDev)
        ensures
            pci@ == Self::parts(device).0,
    ;

    fn find(sysfs: &Sysfs) -> (search: Search)
        ensures
            search.well_formed(),
            search matches Survey::First(inquest) && inquest.inquiry().devices() == devices_dir(
                sysfs.root(),
            ) && inquest.inquiry().wanted() == Self::wanted() && inquest.replies() == Seq::<
                Reply,
            >::empty(),
    ;
}

// --- One device --------------------------------------------------------------

/// The opening of a device of a kind.
pub enum Opening<K: Kind> {
    /// Opening the PCI function.
    Device(OpenDev),
    /// Looking whether it is of the kind.
    Looking(PciDev, K, Script),
    /// Closing it again, for it is not.
    Closing(CloseDev, CcError),
}

pub enum OpeningState<K: Kind> {
    Device(OpenState),
    Looking(DevState, K, ScriptState),
    Closing(CloseState, CcFault),
}

/// What an opening comes to.
pub type OpeningEnd<M> = Result<(DevState, M), CcFault>;

impl<K: Kind> View for Opening<K> {
    type V = OpeningState<K>;

    open spec fn view(&self) -> OpeningState<K> {
        match *self {
            Opening::Device(open) => OpeningState::Device(open@),
            Opening::Looking(dev, kind, script) => OpeningState::Looking(dev@, kind, script@),
            Opening::Closing(close, err) => OpeningState::Closing(close@, err@),
        }
    }
}

impl<K: Kind> OpeningState<K> {
    pub open spec fn is_complete(self) -> bool {
        match self {
            OpeningState::Device(open) => open.well_formed(),
            OpeningState::Looking(_, _, script) => script.well_formed() && count_reads(script.code)
                == 1,
            OpeningState::Closing(close, _) => close.well_formed(),
        }
    }

    pub open spec fn next_request(self) -> Request {
        match self {
            OpeningState::Device(open) => open.request(),
            OpeningState::Looking(_, _, script) => script.request(),
            OpeningState::Closing(close, _) => close.request(),
        }
    }

    /// A device that will not do is closed before the failure is told.
    pub open spec fn refuse(dev: DevState, err: CcFault) -> Step<Self, OpeningEnd<K::Model>> {
        match closing(dev) {
            Step::Next(close) => Step::Next(OpeningState::Closing(close, err)),
            Step::Done(()) => Step::Done(Err(err)),
        }
    }

    pub open spec fn opened(dev: DevState) -> Step<Self, OpeningEnd<K::Model>> {
        match K::identified(dev.vendor, dev.device) {
            Ok(kind) => Step::Next(OpeningState::Looking(dev, kind, script_of(kind.code()))),
            Err(fault) => Self::refuse(dev, CcFault::Device(dev.bdf, fault)),
        }
    }

    pub open spec fn looked(dev: DevState, kind: K, end: ScriptEnd) -> Step<
        Self,
        OpeningEnd<K::Model>,
    > {
        match end {
            Ok(out) => match kind.accepted(out[0]) {
                Ok(model) => Step::Done(Ok((dev, model))),
                Err(fault) => Self::refuse(dev, CcFault::Device(dev.bdf, fault)),
            },
            Err(stop) => Self::refuse(dev, stop_error(stop)),
        }
    }

    pub open spec fn after(self, reply: Reply) -> Step<Self, OpeningEnd<K::Model>> {
        match self {
            OpeningState::Device(open) => match open.after(reply) {
                Step::Next(open) => Step::Next(OpeningState::Device(open)),
                Step::Done(Ok(dev)) => Self::opened(dev),
                Step::Done(Err(err)) => Step::Done(Err(CcFault::Io(err))),
            },
            OpeningState::Looking(dev, kind, script) => match script.after(reply) {
                Step::Next(script) => Step::Next(OpeningState::Looking(dev, kind, script)),
                Step::Done(end) => Self::looked(dev, kind, end),
            },
            OpeningState::Closing(close, err) => match close.after(reply) {
                Step::Next(close) => Step::Next(OpeningState::Closing(close, err)),
                Step::Done(()) => Step::Done(Err(err)),
            },
        }
    }
}

/// What opening the device at an address starts with.
pub open spec fn opening_of<K: Kind>(root: Seq<char>, bdf: Seq<char>) -> Result<
    OpeningState<K>,
    CcFault,
> {
    match canonical(bdf) {
        Some(bdf) => Ok(OpeningState::Device(opening(devices_dir(root), bdf))),
        None => Err(CcFault::Io(not_an_address(bdf))),
    }
}

pub open spec fn opening_end<K: Kind>(r: Result<K::Device, CcError>) -> OpeningEnd<K::Model> {
    match r {
        Ok(device) => Ok(K::parts(device)),
        Err(err) => Err(err@),
    }
}

pub open spec fn opening_step<K: Kind>(step: Step<Opening<K>, Result<K::Device, CcError>>) -> Step<
    OpeningState<K>,
    OpeningEnd<K::Model>,
> {
    match step {
        Step::Next(opening) => Step::Next(opening@),
        Step::Done(r) => Step::Done(opening_end::<K>(r)),
    }
}

impl<K: Kind> Opening<K> {
    /// Start opening the device at an address.
    pub fn start(sysfs: &Sysfs, bdf: &str) -> (r: Result<Opening<K>, CcError>)
        ensures
            match r {
                Ok(started) => {
                    &&& opening_of::<K>(sysfs.root(), bdf@) == Ok::<OpeningState<K>, CcFault>(
                        started@,
                    )
                    &&& started.well_formed()
                },
                Err(err) => opening_of::<K>(sysfs.root(), bdf@) == Err::<OpeningState<K>, CcFault>(
                    err@,
                ),
            },
    {
        match PciDev::open_in(sysfs, bdf) {
            Ok(open) => Ok(Opening::Device(open)),
            Err(err) => Err(CcError::Io(err)),
        }
    }

    fn refuse(dev: PciDev, err: CcError) -> (step: Step<Opening<K>, Result<K::Device, CcError>>)
        ensures
            opening_step(step) == OpeningState::<K>::refuse(dev@, err@),
            step matches Step::Next(next) ==> next@.is_complete(),
    {
        match dev.close() {
            Step::Next(close) => Step::Next(Opening::Closing(close, err)),
            Step::Done(()) => Step::Done(Err(err)),
        }
    }

    fn opened(dev: PciDev) -> (step: Step<Opening<K>, Result<K::Device, CcError>>)
        ensures
            opening_step(step) == OpeningState::<K>::opened(dev@),
            step matches Step::Next(next) ==> next@.is_complete(),
    {
        match K::identify(dev.vendor, dev.device) {
            Ok(kind) => Step::Next(Opening::Looking(dev, kind, Script::new(kind.program()))),
            Err(fault) => {
                let bdf: String = dev.bdf.clone();
                Self::refuse(dev, CcError::Device(bdf, fault))
            },
        }
    }

    fn looked(dev: PciDev, kind: K, end: Result<Vec<u32>, Stop>) -> (step: Step<
        Opening<K>,
        Result<K::Device, CcError>,
    >)
        requires
            end matches Ok(out) ==> out.len() == 1,
        ensures
            opening_step(step) == OpeningState::<K>::looked(
                dev@,
                kind,
                script_end(end),
            ),
            step matches Step::Next(next) ==> next@.is_complete(),
    {
        match end {
            Ok(out) => match kind.accept(out[0]) {
                Ok(model) => Step::Done(Ok(K::assemble(dev, model))),
                Err(fault) => {
                    let bdf: String = dev.bdf.clone();
                    Self::refuse(dev, CcError::Device(bdf, fault))
                },
            },
            Err(stop) => Self::refuse(dev, stopped(stop)),
        }
    }
}

impl<K: Kind> Procedure for Opening<K> {
    type Output = Result<K::Device, CcError>;

    open spec fn well_formed(&self) -> bool {
        self@.is_complete()
    }

    open spec fn request(&self) -> Request {
        self@.next_request()
    }

    fn op(&self) -> (op: Op) {
        let ghost _now = (self.well_formed(), self.request());
        match self {
            Opening::Device(open) => open.op(),
            Opening::Looking(_, _, script) => script.op(),
            Opening::Closing(close, _) => close.op(),
        }
    }

    fn resume(self, reply: Reply) -> (step: Step<Self, Self::Output>)
        ensures
            opening_step(step) == self@.after(reply),
    {
        let ghost _now = (self.well_formed(), self.request());
        match self {
            Opening::Device(open) => match open.resume(reply) {
                Step::Next(open) => Step::Next(Opening::Device(open)),
                Step::Done(Ok(dev)) => Self::opened(dev),
                Step::Done(Err(err)) => Step::Done(Err(CcError::Io(err))),
            },
            Opening::Looking(dev, kind, script) => match script.resume(reply) {
                Step::Next(script) => Step::Next(Opening::Looking(dev, kind, script)),
                Step::Done(end) => Self::looked(dev, kind, end),
            },
            Opening::Closing(close, err) => match close.resume(reply) {
                Step::Next(close) => Step::Next(Opening::Closing(close, err)),
                Step::Done(()) => Step::Done(Err(err)),
            },
        }
    }
}

/// An opening that fails leaves nothing behind: whatever the device had been
/// brought to is undone before the failure is told.
pub proof fn a_refused_device_is_closed_first<K: Kind>(opening: OpeningState<K>, reply: Reply)
    requires
        opening.after(reply) matches Step::Done(Err(_)),
    ensures
        match opening {
            OpeningState::Device(open) => match open.after(reply) {
                Step::Done(Ok(dev)) => closing(dev) is Done,
                Step::Done(Err(_)) => true,
                Step::Next(_) => false,
            },
            OpeningState::Looking(dev, _, _) => closing(dev) is Done,
            OpeningState::Closing(close, _) => close.after(reply) is Done,
        },
{
}

// --- All devices -------------------------------------------------------------

/// The opening of every device of a kind.
pub enum Enumeration<K: Kind> {
    /// Finding them.
    Searching(Sysfs, Search),
    /// Opening one after the other: the tree, the addresses, which of them it
    /// is about, and the devices already open.
    Opening(Sysfs, Vec<String>, usize, Vec<K::Device>, Opening<K>),
    /// Closing those already open, for one could not be: the others, the one
    /// it is about, and why.
    Closing(Vec<K::Device>, CloseDev, CcError),
}

/// Open devices, and what they are.
pub type Held<M> = Seq<(DevState, M)>;

pub open spec fn held<K: Kind>(devices: Seq<K::Device>) -> Held<K::Model> {
    devices.map_values(|device: K::Device| K::parts(device))
}

pub enum EnumerationState<K: Kind> {
    Searching(Seq<char>, Search),
    Opening(Seq<char>, Seq<Seq<char>>, int, Held<K::Model>, OpeningState<K>),
    Closing(Held<K::Model>, CloseState, CcFault),
}

pub type EnumerationEnd<M> = Result<Held<M>, CcFault>;

impl<K: Kind> View for Enumeration<K> {
    type V = EnumerationState<K>;

    open spec fn view(&self) -> EnumerationState<K> {
        match *self {
            Enumeration::Searching(sysfs, search) => EnumerationState::Searching(
                sysfs.root(),
                search,
            ),
            Enumeration::Opening(sysfs, bdfs, at, devices, opening) => EnumerationState::Opening(
                sysfs.root(),
                texts(bdfs@),
                at as int,
                held::<K>(devices@),
                opening@,
            ),
            Enumeration::Closing(devices, close, err) => EnumerationState::Closing(
                held::<K>(devices@),
                close@,
                err@,
            ),
        }
    }
}

impl<K: Kind> EnumerationState<K> {
    /// Close what is open, first to last, and fail.
    pub open spec fn give_up(devices: Held<K::Model>, err: CcFault) -> Step<
        Self,
        EnumerationEnd<K::Model>,
    >
        decreases devices.len(),
    {
        if devices.len() == 0 {
            Step::Done(Err(err))
        } else {
            match closing(devices[0].0) {
                Step::Next(close) => Step::Next(
                    EnumerationState::Closing(devices.drop_first(), close, err),
                ),
                Step::Done(()) => Self::give_up(devices.drop_first(), err),
            }
        }
    }

    /// Open the devices from one of the addresses on.
    pub open spec fn open_from(
        root: Seq<char>,
        bdfs: Seq<Seq<char>>,
        at: int,
        devices: Held<K::Model>,
    ) -> Step<Self, EnumerationEnd<K::Model>> {
        if at == bdfs.len() {
            Step::Done(Ok(devices))
        } else {
            match opening_of::<K>(root, bdfs[at]) {
                Ok(opening) => Step::Next(
                    EnumerationState::Opening(root, bdfs, at, devices, opening),
                ),
                Err(err) => Self::give_up(devices, err),
            }
        }
    }

    /// Where it stands once resumed, the devices having been found.
    pub open spec fn after(self, reply: Reply) -> Step<Self, EnumerationEnd<K::Model>> {
        match self {
            EnumerationState::Opening(root, bdfs, at, devices, opening) => match opening.after(
                reply,
            ) {
                Step::Next(opening) => Step::Next(
                    EnumerationState::Opening(root, bdfs, at, devices, opening),
                ),
                Step::Done(Ok(device)) => Self::open_from(
                    root,
                    bdfs,
                    at + 1,
                    devices.push(device),
                ),
                Step::Done(Err(err)) => Self::give_up(devices, err),
            },
            EnumerationState::Closing(devices, close, err) => match close.after(reply) {
                Step::Next(close) => Step::Next(EnumerationState::Closing(devices, close, err)),
                Step::Done(()) => Self::give_up(devices, err),
            },
            EnumerationState::Searching(_, _) => Step::Next(self),
        }
    }

    /// Where it stands once the search has gone on.
    pub open spec fn searched(
        root: Seq<char>,
        step: Step<Search, Result<Vec<String>, CcError>>,
    ) -> Step<Self, EnumerationEnd<K::Model>> {
        match step {
            Step::Next(search) => Step::Next(EnumerationState::Searching(root, search)),
            Step::Done(Ok(bdfs)) => Self::open_from(root, texts(bdfs@), 0, seq![]),
            Step::Done(Err(err)) => Step::Done(Err(err@)),
        }
    }

    /// Whether `step` is where it stands once resumed with `reply`.
    pub open spec fn goes_on(
        self,
        reply: Reply,
        step: Step<Self, EnumerationEnd<K::Model>>,
    ) -> bool {
        match self {
            EnumerationState::Searching(root, search) => exists|found: Step<
                Search,
                Result<Vec<String>, CcError>,
            >| #[trigger]
                search.goes_on(reply, found) && step == Self::searched(root, found),
            _ => step == self.after(reply),
        }
    }
}

pub open spec fn enumeration_step<K: Kind>(
    step: Step<Enumeration<K>, Result<Vec<K::Device>, CcError>>,
) -> Step<EnumerationState<K>, EnumerationEnd<K::Model>> {
    match step {
        Step::Next(enumeration) => Step::Next(enumeration@),
        Step::Done(Ok(devices)) => Step::Done(Ok(held::<K>(devices@))),
        Step::Done(Err(err)) => Step::Done(Err(err@)),
    }
}

proof fn lemma_given_up<K: Kind>(devices: Held<K::Model>, err: CcFault, i: int)
    requires
        EnumerationState::<K>::give_up(devices, err) is Done,
        0 <= i < devices.len(),
    ensures
        closing(devices[i].0) is Done,
    decreases devices.len(),
{
    if i > 0 {
        lemma_given_up::<K>(devices.drop_first(), err, i - 1);
    }
}

proof fn lemma_give_up_fails<K: Kind>(devices: Held<K::Model>, err: CcFault)
    ensures
        match EnumerationState::<K>::give_up(devices, err) {
            Step::Done(end) => end == Err::<Held<K::Model>, CcFault>(err),
            Step::Next(EnumerationState::Closing(rest, _, why)) => why == err && rest.len()
                < devices.len(),
            Step::Next(_) => false,
        },
    decreases devices.len(),
{
    if devices.len() > 0 {
        lemma_give_up_fails::<K>(devices.drop_first(), err);
    }
}

/// An enumeration fails on the first device that cannot be opened, with what
/// came of that one, and only once none of those already open is left with
/// anything to undo.
pub proof fn a_failed_enumeration_leaves_nothing_open<K: Kind>(
    state: EnumerationState<K>,
    reply: Reply,
    i: int,
)
    requires
        !(state is Searching),
        state.after(reply) matches Step::Done(Err(_)),
    ensures
        match state {
            EnumerationState::Opening(_, _, _, devices, opening) => match opening.after(reply) {
                Step::Done(Err(err)) => state.after(reply) == Step::<
                    EnumerationState<K>,
                    EnumerationEnd<K::Model>,
                >::Done(Err(err)) && (0 <= i < devices.len() ==> closing(devices[i].0) is Done),
                Step::Done(Ok(_)) => 0 <= i < devices.len() ==> closing(devices[i].0) is Done,
                Step::Next(_) => false,
            },
            EnumerationState::Closing(devices, close, err) => state.after(reply) == Step::<
                EnumerationState<K>,
                EnumerationEnd<K::Model>,
            >::Done(Err(err)) && close.after(reply) is Done && (0 <= i < devices.len() ==> closing(
                devices[i].0,
            ) is Done),
            EnumerationState::Searching(_, _) => true,
        },
{
    match state {
        EnumerationState::Opening(root, bdfs, at, devices, opening) => match opening.after(reply) {
            Step::Done(Err(err)) => {
                lemma_give_up_fails::<K>(devices, err);
                if 0 <= i < devices.len() {
                    lemma_given_up::<K>(devices, err, i);
                }
            },
            Step::Done(Ok(device)) => {
                let held = devices.push(device);
                if at + 1 != bdfs.len() {
                    if let Err(err) = opening_of::<K>(root, bdfs[at + 1]) {
                        lemma_give_up_fails::<K>(held, err);
                        if 0 <= i < devices.len() {
                            lemma_given_up::<K>(held, err, i);
                        }
                    }
                }
            },
            Step::Next(_) => {},
        },
        EnumerationState::Closing(devices, close, err) => {
            lemma_give_up_fails::<K>(devices, err);
            if close.after(reply) is Done && 0 <= i < devices.len() {
                lemma_given_up::<K>(devices, err, i);
            }
        },
        EnumerationState::Searching(_, _) => {},
    }
}

impl<K: Kind> Enumeration<K> {
    pub open spec fn is_complete(&self) -> bool {
        match *self {
            Enumeration::Searching(_, search) => search.is_complete(),
            Enumeration::Opening(_, bdfs, at, _, opening) => at < bdfs.len()
                && opening@.is_complete(),
            Enumeration::Closing(_, close, _) => close@.well_formed(),
        }
    }

    /// Start finding the devices under a tree.
    pub fn start(sysfs: &Sysfs) -> (r: Enumeration<K>)
        ensures
            r@ matches EnumerationState::Searching(root, Survey::First(inquest)) && root
                == sysfs.root() && inquest.inquiry().devices() == devices_dir(root)
                && inquest.inquiry().wanted() == K::wanted() && inquest.replies() == Seq::<
                Reply,
            >::empty(),
            r.well_formed(),
    {
        Enumeration::Searching(sysfs.clone(), K::find(sysfs))
    }

    fn give_up(devices: Vec<K::Device>, err: CcError) -> (step: Step<
        Enumeration<K>,
        Result<Vec<K::Device>, CcError>,
    >)
        ensures
            enumeration_step(step) == EnumerationState::<K>::give_up(held::<K>(devices@), err@),
            step matches Step::Next(next) ==> next.is_complete(),
    {
        let ghost all = held::<K>(devices@);
        let mut rest: Vec<K::Device> = devices;
        while rest.len() > 0
            invariant
                EnumerationState::<K>::give_up(all, err@) == EnumerationState::<K>::give_up(
                    held::<K>(rest@),
                    err@,
                ),
                all == held::<K>(devices@),
            decreases rest.len(),
        {
            let ghost before = rest@;
            let device: K::Device = rest.remove(0);
            assert(held::<K>(before).drop_first() =~= held::<K>(rest@));
            match K::release(device).close() {
                Step::Next(close) => {
                    return Step::Next(Enumeration::Closing(rest, close, err));
                },
                Step::Done(()) => {},
            }
        }
        Step::Done(Err(err))
    }

    fn open_from(sysfs: Sysfs, bdfs: Vec<String>, at: usize, devices: Vec<K::Device>) -> (step:
        Step<Enumeration<K>, Result<Vec<K::Device>, CcError>>)
        requires
            at <= bdfs.len(),
        ensures
            enumeration_step(step) == EnumerationState::<K>::open_from(
                sysfs.root(),
                texts(bdfs@),
                at as int,
                held::<K>(devices@),
            ),
            step matches Step::Next(next) ==> next.is_complete(),
    {
        if at == bdfs.len() {
            return Step::Done(Ok(devices));
        }
        match Opening::start(&sysfs, &bdfs[at]) {
            Ok(opening) => Step::Next(Enumeration::Opening(sysfs, bdfs, at, devices, opening)),
            Err(err) => Self::give_up(devices, err),
        }
    }
}

impl<K: Kind> Procedure for Enumeration<K> {
    type Output = Result<Vec<K::Device>, CcError>;

    open spec fn well_formed(&self) -> bool {
        self.is_complete()
    }

    open spec fn request(&self) -> Request {
        match self@ {
            EnumerationState::Searching(_, search) => search.next_request(),
            EnumerationState::Opening(_, _, _, _, opening) => opening.next_request(),
            EnumerationState::Closing(_, close, _) => close.request(),
        }
    }

    fn op(&self) -> (op: Op) {
        let ghost _now = (self.well_formed(), self.request());
        match self {
            Enumeration::Searching(_, search) => search.op(),
            Enumeration::Opening(_, _, _, _, opening) => opening.op(),
            Enumeration::Closing(_, close, _) => close.op(),
        }
    }

    fn resume(self, reply: Reply) -> (step: Step<Self, Self::Output>)
        ensures
            self@.goes_on(reply, enumeration_step(step)),
    {
        let ghost _now = (self.well_formed(), self.request());
        match self {
            Enumeration::Searching(sysfs, search) => match search.resume(reply) {
                Step::Next(search) => Step::Next(Enumeration::Searching(sysfs, search)),
                Step::Done(Ok(bdfs)) => {
                    let devices: Vec<K::Device> = Vec::new();
                    assert(held::<K>(devices@) =~= seq![]);
                    Self::open_from(sysfs, bdfs, 0, devices)
                },
                Step::Done(Err(err)) => Step::Done(Err(err)),
            },
            Enumeration::Opening(sysfs, bdfs, at, devices, opening) => match opening.resume(reply) {
                Step::Next(opening) => Step::Next(
                    Enumeration::Opening(sysfs, bdfs, at, devices, opening),
                ),
                Step::Done(Ok(device)) => {
                    let ghost before = devices@;
                    let mut devices: Vec<K::Device> = devices;
                    devices.push(device);
                    assert(held::<K>(devices@) =~= held::<K>(before).push(K::parts(device)));
                    Self::open_from(sysfs, bdfs, at + 1, devices)
                },
                Step::Done(Err(err)) => Self::give_up(devices, err),
            },
            Enumeration::Closing(devices, close, err) => match close.resume(reply) {
                Step::Next(close) => Step::Next(Enumeration::Closing(devices, close, err)),
                Step::Done(()) => Self::give_up(devices, err),
            },
        }
    }
}

// --- What is opened ----------------------------------------------------------

/// Whether a device is the one at an address below a tree.
pub open spec fn is_at(dev: DevState, root: Seq<char>, bdf: Seq<char>) -> bool {
    &&& canonical(bdf) == Some(dev.bdf)
    &&& dev.path == joined_path(devices_dir(root), dev.bdf)
}

/// Whether an opening is that of the device at an address, and has not been
/// given up.
pub open spec fn opens<K: Kind>(opening: OpeningState<K>, root: Seq<char>, bdf: Seq<char>) -> bool {
    match opening {
        OpeningState::Device(open) => is_at(open.dev, root, bdf),
        OpeningState::Looking(dev, _, _) => is_at(dev, root, bdf),
        OpeningState::Closing(_, _) => true,
    }
}

proof fn lemma_opening_stays<K: Kind>(
    opening: OpeningState<K>,
    root: Seq<char>,
    bdf: Seq<char>,
    reply: Reply,
)
    requires
        opens(opening, root, bdf),
    ensures
        match opening.after(reply) {
            Step::Next(next) => opens(next, root, bdf),
            Step::Done(Ok((dev, _))) => is_at(dev, root, bdf),
            Step::Done(Err(_)) => true,
        },
{
    if let OpeningState::Device(open) = opening {
        match open.after(reply) {
            Step::Next(next) => {
                assert(next.dev.bdf == open.dev.bdf && next.dev.path == open.dev.path);
            },
            Step::Done(Ok(dev)) => {
                assert(dev.bdf == open.dev.bdf && dev.path == open.dev.path);
            },
            Step::Done(Err(_)) => {},
        }
    }
}

/// Whether an enumeration has opened all the devices before the one that it is
/// about, each at its address.
pub open spec fn has_opened<K: Kind>(
    state: EnumerationState<K>,
    tree: Seq<char>,
    found: Seq<Seq<char>>,
) -> bool {
    match state {
        EnumerationState::Searching(_, _) => false,
        EnumerationState::Opening(root, bdfs, at, devices, opening) => {
            &&& root == tree
            &&& bdfs == found
            &&& 0 <= at < bdfs.len()
            &&& devices.len() == at
            &&& forall|i: int| 0 <= i < at ==> is_at((#[trigger] devices[i]).0, root, bdfs[i])
            &&& opens(opening, root, bdfs[at])
        },
        EnumerationState::Closing(_, _, _) => true,
    }
}

proof fn lemma_open_from<K: Kind>(
    root: Seq<char>,
    bdfs: Seq<Seq<char>>,
    at: int,
    devices: Held<K::Model>,
)
    requires
        0 <= at <= bdfs.len(),
        devices.len() == at,
        forall|i: int| 0 <= i < at ==> is_at((#[trigger] devices[i]).0, root, bdfs[i]),
    ensures
        match EnumerationState::<K>::open_from(root, bdfs, at, devices) {
            Step::Next(next) => has_opened(next, root, bdfs),
            Step::Done(Ok(all)) => at == bdfs.len() && all == devices,
            Step::Done(Err(_)) => true,
        },
{
    if at < bdfs.len() {
        if let Err(err) = opening_of::<K>(root, bdfs[at]) {
            lemma_give_up_fails::<K>(devices, err);
        }
    }
}

/// An enumeration that succeeds has opened every device that was found, each at
/// its own address, in the order in which they were found: none is left out and
/// none comes twice.
pub proof fn an_enumeration_opens_every_device<K: Kind>(
    state: EnumerationState<K>,
    root: Seq<char>,
    found: Seq<Seq<char>>,
    reply: Reply,
)
    requires
        has_opened(state, root, found),
    ensures
        match EnumerationState::<K>::open_from(root, found, 0, seq![]) {
            Step::Next(next) => has_opened(next, root, found),
            Step::Done(Ok(all)) => found.len() == 0 && all.len() == 0,
            Step::Done(Err(_)) => true,
        },
        match state.after(reply) {
            Step::Next(next) => has_opened(next, root, found),
            Step::Done(Ok(all)) => {
                &&& all.len() == found.len()
                &&& forall|i: int|
                    0 <= i < all.len() ==> is_at((#[trigger] all[i]).0, root, found[i])
            },
            Step::Done(Err(_)) => true,
        },
{
    lemma_open_from::<K>(root, found, 0, seq![]);
    match state {
        EnumerationState::Opening(_, bdfs, at, devices, opening) => {
            lemma_opening_stays(opening, root, bdfs[at], reply);
            match opening.after(reply) {
                Step::Next(_) => {},
                Step::Done(Ok(device)) => {
                    let more = devices.push(device);
                    assert forall|i: int| 0 <= i < at + 1 implies is_at(
                        (#[trigger] more[i]).0,
                        root,
                        bdfs[i],
                    ) by {
                        if i < at {
                            assert(more[i] == devices[i]);
                        }
                    }
                    lemma_open_from::<K>(root, bdfs, at + 1, more);
                },
                Step::Done(Err(err)) => {
                    lemma_give_up_fails::<K>(devices, err);
                },
            }
        },
        EnumerationState::Closing(devices, close, err) => {
            if close.after(reply) is Done {
                lemma_give_up_fails::<K>(devices, err);
            }
        },
        EnumerationState::Searching(_, _) => {},
    }
}

/// An open device is looked at where its numbers are those of the kind, and is
/// open where the word it answers with is; otherwise it is closed, and what is
/// told is its address with what was wrong, or what was waited for in vain.
pub proof fn a_device_is_open_if_it_is_of_the_kind<K: Kind>(
    dev: DevState,
    kind: K,
    word: u32,
    stop: Stop,
)
    requires
        !dev.decoding_enabled,
        dev.power_control is None,
    ensures
        match K::identified(dev.vendor, dev.device) {
            Ok(model) => OpeningState::<K>::opened(dev) == Step::<
                OpeningState<K>,
                OpeningEnd<K::Model>,
            >::Next(OpeningState::Looking(dev, model, script_of(model.code()))),
            Err(fault) => OpeningState::<K>::opened(dev) == Step::<
                OpeningState<K>,
                OpeningEnd<K::Model>,
            >::Done(Err(CcFault::Device(dev.bdf, fault))),
        },
        OpeningState::<K>::looked(dev, kind, Ok(seq![word])) == Step::<
            OpeningState<K>,
            OpeningEnd<K::Model>,
        >::Done(
            match kind.accepted(word) {
                Ok(model) => Ok((dev, model)),
                Err(fault) => Err(CcFault::Device(dev.bdf, fault)),
            },
        ),
        OpeningState::<K>::looked(dev, kind, Err(stop)) == Step::<
            OpeningState<K>,
            OpeningEnd<K::Model>,
        >::Done(Err(stop_error(stop))),
{
}

/// What is no address is refused at once; a function that cannot be opened ends
/// the opening with why, and a search that fails ends the enumeration with why.
pub proof fn a_failure_to_open_is_handed_on<K: Kind>(
    root: Seq<char>,
    bdf: Seq<char>,
    open: OpenState,
    reply: Reply,
    fault: Told,
    failed: CcError,
    found: Vec<String>,
)
    ensures
        canonical(bdf) is None ==> opening_of::<K>(root, bdf) == Err::<OpeningState<K>, CcFault>(
            CcFault::Io(not_an_address(bdf)),
        ),
        canonical(bdf) is Some ==> opening_of::<K>(root, bdf) == Ok::<OpeningState<K>, CcFault>(
            OpeningState::Device(opening(devices_dir(root), canonical(bdf)->0)),
        ),
        open.after(reply) == Step::<OpenState, Result<DevState, Told>>::Done(Err(fault)) ==> (
        OpeningState::<K>::Device(open)).after(reply) == Step::<
            OpeningState<K>,
            OpeningEnd<K::Model>,
        >::Done(Err(CcFault::Io(fault))),
        EnumerationState::<K>::searched(root, Step::Done(Err(failed))) == Step::<
            EnumerationState<K>,
            EnumerationEnd<K::Model>,
        >::Done(Err(failed@)),
        EnumerationState::<K>::searched(root, Step::Done(Ok(found))) == EnumerationState::<
            K,
        >::open_from(root, texts(found@), 0, seq![]),
        found@.len() == 0 ==> EnumerationState::<K>::searched(root, Step::Done(Ok(found)))
            == Step::<EnumerationState<K>, EnumerationEnd<K::Model>>::Done(
            Ok(Seq::<(DevState, K::Model)>::empty()),
        ),
{
}

/// An opening or an enumeration stands where its state says, and ends in what it
/// hands out.
pub proof fn where_the_opening_of_a_kind_stands<K: Kind>(
    open: Opening<K>,
    device: K::Device,
    all: Enumeration<K>,
    devices: Vec<K::Device>,
    i: int,
    err: CcError,
)
    requires
        0 <= i < devices@.len(),
    ensures
        opening_step(Step::Next(open)) == Step::<OpeningState<K>, OpeningEnd<K::Model>>::Next(open@),
        opening_step::<K>(Step::Done(Ok(device))) == Step::<
            OpeningState<K>,
            OpeningEnd<K::Model>,
        >::Done(Ok(K::parts(device))),
        opening_step::<K>(Step::Done(Err(err))) == Step::<
            OpeningState<K>,
            OpeningEnd<K::Model>,
        >::Done(Err(err@)),
        enumeration_step(Step::Next(all)) == Step::<
            EnumerationState<K>,
            EnumerationEnd<K::Model>,
        >::Next(all@),
        enumeration_step::<K>(Step::Done(Ok(devices))) matches Step::Done(Ok(shown)) && shown.len()
            == devices@.len() && shown[i] == K::parts(devices@[i]),
        enumeration_step::<K>(Step::Done(Err(err))) == Step::<
            EnumerationState<K>,
            EnumerationEnd<K::Model>,
        >::Done(Err(err@)),
{
}

} // verus!
