//! The application state: the machine list, the screen stack, selections
//! and filters. Everything here is plain state logic; drawing and input
//! belong to the interactive layer outside, which hands in freshly loaded
//! data and reads the state back.

use vstd::prelude::*;

use crate::ascii_art::AsciiArtStore;
use crate::ascii_art::spec_art_fallback;
use crate::ascii_art::spec_art_lookup;
use crate::discovery::DiscoveredVm;
use crate::discovery::group_vms_by_category;
use crate::discovery::spec_display_name;
use crate::snapshot::Snapshot;
use crate::text::contains_sub;
use crate::text::lower_string;
use crate::text::spec_contains;
use crate::text::spec_lower_seq;
use crate::usb::UsbDevice;

verus! {

broadcast use vstd::string::group_string_axioms;

/// The screens the application can show.
#[derive(Debug, Clone, PartialEq, Eq)]
pub enum Screen {
    /// Main machine list.
    MainMenu,
    /// Machine management options.
    Management,
    /// Configuration view.
    Configuration,
    /// Detailed information.
    DetailedInfo,
    /// Snapshot management.
    Snapshots,
    /// Boot options.
    BootOptions,
    /// USB device selection.
    UsbDevices,
    /// Confirmation dialog for an action.
    Confirm(ConfirmAction),
    /// Help screen.
    Help,
    /// Search and filter.
    Search,
}

/// Actions that need confirmation before they run.
#[derive(Debug, Clone, PartialEq, Eq)]
pub enum ConfirmAction {
    LaunchVm,
    ResetVm,
    DeleteVm,
    DeleteSnapshot(String),
    RestoreSnapshot(String),
}

/// Input mode for text entry.
#[derive(Debug, Clone, PartialEq, Eq)]
pub enum InputMode {
    Normal,
    Editing,
}

/// How the next launch should boot.
#[derive(Debug, Clone, PartialEq, Eq)]
pub enum BootMode {
    /// Start the machine normally.
    Normal,
    /// Boot from installation media.
    Install,
    /// Boot from a chosen image file.
    CustomIso(String),
}

/// One USB device passed through to the guest.
#[derive(Debug, Clone, Copy, PartialEq, Eq, Structural)]
pub struct UsbPassthrough {
    pub vendor_id: u16,
    pub product_id: u16,
}

/// Everything one launch needs beyond the script itself.
#[derive(Debug, Clone)]
pub struct LaunchOptions {
    pub boot_mode: BootMode,
    pub extra_args: Vec<String>,
    pub usb_devices: Vec<UsbPassthrough>,
}

/// Application state.
#[derive(Debug, Clone)]
pub struct App {
    /// Current screen.
    pub screen: Screen,
    /// Screen history for back navigation.
    pub screen_stack: Vec<Screen>,
    /// Discovered machines.
    pub vms: Vec<DiscoveredVm>,
    /// Currently selected machine, as an index into the filtered list.
    pub selected_vm: usize,
    /// ASCII art store.
    pub ascii_art: AsciiArtStore,
    /// Snapshots of the current machine, as last loaded.
    pub snapshots: Vec<Snapshot>,
    /// Selected snapshot index.
    pub selected_snapshot: usize,
    /// USB devices, as last loaded.
    pub usb_devices: Vec<UsbDevice>,
    /// Indices of devices chosen for passthrough.
    pub selected_usb_devices: Vec<usize>,
    /// Selected management menu item.
    pub selected_menu_item: usize,
    /// Current boot mode.
    pub boot_mode: BootMode,
    /// Search query.
    pub search_query: String,
    /// Input mode.
    pub input_mode: InputMode,
    /// Indices into `vms` that match the search query.
    pub filtered_indices: Vec<usize>,
    /// Status message.
    pub status_message: Option<String>,
    /// Whether the application should quit.
    pub should_quit: bool,
}

/// The data fields navigation never touches.
pub open spec fn app_core_unchanged(a: App, b: App) -> bool {
    &&& a.vms@ == b.vms@
    &&& a.ascii_art.art@ == b.ascii_art.art@
    &&& a.snapshots@ == b.snapshots@
    &&& a.selected_snapshot == b.selected_snapshot
    &&& a.usb_devices@ == b.usb_devices@
    &&& a.selected_usb_devices@ == b.selected_usb_devices@
    &&& a.boot_mode == b.boot_mode
    &&& a.search_query@ == b.search_query@
    &&& a.input_mode == b.input_mode
    &&& a.filtered_indices@ == b.filtered_indices@
    &&& a.status_message == b.status_message
    &&& a.should_quit == b.should_quit
}

/// Every field equal but the status message.
pub open spec fn app_unchanged_except_status(a: App, b: App) -> bool {
    &&& a.screen == b.screen
    &&& a.screen_stack@ == b.screen_stack@
    &&& a.vms@ == b.vms@
    &&& a.selected_vm == b.selected_vm
    &&& a.ascii_art.art@ == b.ascii_art.art@
    &&& a.snapshots@ == b.snapshots@
    &&& a.selected_snapshot == b.selected_snapshot
    &&& a.usb_devices@ == b.usb_devices@
    &&& a.selected_usb_devices@ == b.selected_usb_devices@
    &&& a.selected_menu_item == b.selected_menu_item
    &&& a.boot_mode == b.boot_mode
    &&& a.search_query@ == b.search_query@
    &&& a.input_mode == b.input_mode
    &&& a.filtered_indices@ == b.filtered_indices@
    &&& a.should_quit == b.should_quit
}

/// Every field equal but the snapshot cache and its selection.
pub open spec fn app_unchanged_except_snapshots(a: App, b: App) -> bool {
    &&& a.screen == b.screen
    &&& a.screen_stack@ == b.screen_stack@
    &&& a.vms@ == b.vms@
    &&& a.selected_vm == b.selected_vm
    &&& a.ascii_art.art@ == b.ascii_art.art@
    &&& a.usb_devices@ == b.usb_devices@
    &&& a.selected_usb_devices@ == b.selected_usb_devices@
    &&& a.selected_menu_item == b.selected_menu_item
    &&& a.boot_mode == b.boot_mode
    &&& a.search_query@ == b.search_query@
    &&& a.input_mode == b.input_mode
    &&& a.filtered_indices@ == b.filtered_indices@
    &&& a.status_message == b.status_message
    &&& a.should_quit == b.should_quit
}

/// Every field equal but the USB cache and the passthrough choice.
pub open spec fn app_unchanged_except_usb(a: App, b: App) -> bool {
    &&& a.screen == b.screen
    &&& a.screen_stack@ == b.screen_stack@
    &&& a.vms@ == b.vms@
    &&& a.selected_vm == b.selected_vm
    &&& a.ascii_art.art@ == b.ascii_art.art@
    &&& a.snapshots@ == b.snapshots@
    &&& a.selected_snapshot == b.selected_snapshot
    &&& a.selected_menu_item == b.selected_menu_item
    &&& a.boot_mode == b.boot_mode
    &&& a.search_query@ == b.search_query@
    &&& a.input_mode == b.input_mode
    &&& a.filtered_indices@ == b.filtered_indices@
    &&& a.status_message == b.status_message
    &&& a.should_quit == b.should_quit
}

/// Every field equal but the passthrough choice.
pub open spec fn app_unchanged_except_usb_selection(a: App, b: App) -> bool {
    &&& a.screen == b.screen
    &&& a.screen_stack@ == b.screen_stack@
    &&& a.vms@ == b.vms@
    &&& a.selected_vm == b.selected_vm
    &&& a.ascii_art.art@ == b.ascii_art.art@
    &&& a.snapshots@ == b.snapshots@
    &&& a.selected_snapshot == b.selected_snapshot
    &&& a.usb_devices@ == b.usb_devices@
    &&& a.selected_menu_item == b.selected_menu_item
    &&& a.boot_mode == b.boot_mode
    &&& a.search_query@ == b.search_query@
    &&& a.input_mode == b.input_mode
    &&& a.filtered_indices@ == b.filtered_indices@
    &&& a.status_message == b.status_message
    &&& a.should_quit == b.should_quit
}

/// Every field equal but the machine list, the filter and the machine selection.
pub open spec fn app_unchanged_except_vms_filter(a: App, b: App) -> bool {
    &&& a.screen == b.screen
    &&& a.screen_stack@ == b.screen_stack@
    &&& a.ascii_art.art@ == b.ascii_art.art@
    &&& a.snapshots@ == b.snapshots@
    &&& a.selected_snapshot == b.selected_snapshot
    &&& a.usb_devices@ == b.usb_devices@
    &&& a.selected_usb_devices@ == b.selected_usb_devices@
    &&& a.selected_menu_item == b.selected_menu_item
    &&& a.boot_mode == b.boot_mode
    &&& a.search_query@ == b.search_query@
    &&& a.input_mode == b.input_mode
    &&& a.status_message == b.status_message
    &&& a.should_quit == b.should_quit
}

/// The machine the current selection points at, when it is in range.
pub open spec fn spec_selected_vm(a: App) -> Option<DiscoveredVm> {
    if a.filtered_indices@.len() == 0 {
        None
    } else if a.selected_vm >= a.filtered_indices@.len() {
        None
    } else if a.filtered_indices@[a.selected_vm as int] >= a.vms@.len() {
        None
    } else {
        Some(a.vms@[a.filtered_indices@[a.selected_vm as int] as int])
    }
}

/// Whether a machine matches the lower-cased query, by display name or by
/// identifier.
pub open spec fn spec_vm_matches_query(vm: DiscoveredVm, q: Seq<char>) -> bool {
    spec_contains(spec_lower_seq(spec_display_name(vm.id@)), q) || spec_contains(
        spec_lower_seq(vm.id@),
        q,
    )
}

/// The indices of the machines matching the query, from position `i` on.
pub open spec fn spec_query_filter(vms: Seq<DiscoveredVm>, q: Seq<char>, i: int) -> Seq<int>
    decreases vms.len() - i,
{
    if i < 0 || i >= vms.len() {
        Seq::empty()
    } else {
        (if spec_vm_matches_query(vms[i], q) {
            seq![i]
        } else {
            Seq::empty()
        }) + spec_query_filter(vms, q, i + 1)
    }
}

/// The filtered indices an application state should hold for its query:
/// everything when the query is empty, the matching indices otherwise.
pub open spec fn spec_filter_ok(a: App) -> bool {
    if a.search_query@.len() == 0 {
        &&& a.filtered_indices@.len() == a.vms@.len()
        &&& forall|i: int| 0 <= i < a.filtered_indices@.len() ==> a.filtered_indices@[i] == i
    } else {
        let f = spec_query_filter(a.vms@, spec_lower_seq(a.search_query@), 0);
        &&& a.filtered_indices@.len() == f.len()
        &&& forall|i: int| 0 <= i < f.len() ==> a.filtered_indices@[i] as int == f[i]
    }
}

/// The passthrough pairs the chosen indices select, skipping any index
/// that no longer names a device.
pub open spec fn spec_usb_selection(sel: Seq<usize>, devs: Seq<UsbDevice>) -> Seq<(u16, u16)>
    decreases sel.len(),
{
    if sel.len() == 0 {
        Seq::empty()
    } else {
        (if sel[0] < devs.len() {
            seq![(devs[sel[0] as int].vendor_id, devs[sel[0] as int].product_id)]
        } else {
            Seq::empty()
        }) + spec_usb_selection(sel.drop_first(), devs)
    }
}

/// First position of `x` in `s`.
pub open spec fn spec_first_eq(s: Seq<usize>, x: usize, from: int) -> Option<int>
    decreases s.len() - from,
{
    if from < 0 || from >= s.len() {
        None
    } else if s[from] == x {
        Some(from)
    } else {
        spec_first_eq(s, x, from + 1)
    }
}

/// A structural copy of a screen value.
fn clone_screen(s: &Screen) -> (r: Screen)
    ensures
        r == *s,
{
    match s {
        Screen::MainMenu => Screen::MainMenu,
        Screen::Management => Screen::Management,
        Screen::Configuration => Screen::Configuration,
        Screen::DetailedInfo => Screen::DetailedInfo,
        Screen::Snapshots => Screen::Snapshots,
        Screen::BootOptions => Screen::BootOptions,
        Screen::UsbDevices => Screen::UsbDevices,
        Screen::Confirm(c) => Screen::Confirm(
            match c {
                ConfirmAction::LaunchVm => ConfirmAction::LaunchVm,
                ConfirmAction::ResetVm => ConfirmAction::ResetVm,
                ConfirmAction::DeleteVm => ConfirmAction::DeleteVm,
                ConfirmAction::DeleteSnapshot(n) => ConfirmAction::DeleteSnapshot(n.clone()),
                ConfirmAction::RestoreSnapshot(n) => ConfirmAction::RestoreSnapshot(n.clone()),
            },
        ),
        Screen::Help => Screen::Help,
        Screen::Search => Screen::Search,
    }
}

impl App {
    /// A fresh application over the discovered machines and the art store:
    /// the main menu, nothing selected, no filter, nothing pending.
    pub fn new(vms: Vec<DiscoveredVm>, ascii_art: AsciiArtStore) -> (r: App)
        ensures
            r.screen == Screen::MainMenu,
            r.screen_stack@.len() == 0,
            r.vms@ == vms@,
            r.selected_vm == 0,
            r.ascii_art.art@ == ascii_art.art@,
            r.snapshots@.len() == 0,
            r.selected_snapshot == 0,
            r.usb_devices@.len() == 0,
            r.selected_usb_devices@.len() == 0,
            r.selected_menu_item == 0,
            r.boot_mode == BootMode::Normal,
            r.search_query@.len() == 0,
            r.input_mode == InputMode::Normal,
            r.filtered_indices@.len() == vms@.len(),
            forall|i: int| 0 <= i < vms@.len() ==> r.filtered_indices@[i] == i,
            r.status_message is None,
            !r.should_quit,
            spec_filter_ok(r),
    {
        let n = vms.len();
        let mut filtered_indices: Vec<usize> = Vec::new();
        let mut i: usize = 0;
        while i < n
            invariant
                0 <= i <= n,
                filtered_indices@.len() == i,
                forall|k: int| 0 <= k < i ==> filtered_indices@[k] == k,
            decreases n - i,
        {
            filtered_indices.push(i);
            i += 1;
        }
        App {
            screen: Screen::MainMenu,
            screen_stack: Vec::new(),
            vms,
            selected_vm: 0,
            ascii_art,
            snapshots: Vec::new(),
            selected_snapshot: 0,
            usb_devices: Vec::new(),
            selected_usb_devices: Vec::new(),
            selected_menu_item: 0,
            boot_mode: BootMode::Normal,
            search_query: String::new(),
            input_mode: InputMode::Normal,
            filtered_indices,
            status_message: None,
            should_quit: false,
        }
    }

    /// The currently selected machine, when the selection is in range.
    pub fn selected_vm(&self) -> (r: Option<&DiscoveredVm>)
        ensures
            match r {
                Some(vm) => spec_selected_vm(*self) == Some(*vm),
                None => spec_selected_vm(*self) is None,
            },
    {
        if self.filtered_indices.len() == 0 {
            return None;
        }
        if self.selected_vm >= self.filtered_indices.len() {
            return None;
        }
        let actual = self.filtered_indices[self.selected_vm];
        if actual >= self.vms.len() {
            return None;
        }
        Some(&self.vms[actual])
    }

    /// The art shown for the selected machine; nothing when none is
    /// selected.
    pub fn selected_vm_ascii(&self) -> (r: &str)
        ensures
            r@ == (match spec_selected_vm(*self) {
                Some(vm) => match spec_art_lookup(self.ascii_art.art@, vm.id@) {
                    Some(a) => a,
                    None => spec_art_fallback(spec_lower_seq(vm.id@)),
                },
                None => Seq::<char>::empty(),
            }),
    {
        match self.selected_vm() {
            Some(vm) => self.ascii_art.get_or_fallback(vm.id.as_str()),
            None => {
                proof {
                    reveal_strlit("");
                }
                ""
            },
        }
    }

    /// Navigate to a new screen, pushing the current one on the history.
    pub fn push_screen(&mut self, screen: Screen)
        ensures
            final(self).screen == screen,
            final(self).screen_stack@ == old(self).screen_stack@.push(old(self).screen),
            final(self).selected_menu_item == 0,
            final(self).selected_vm == old(self).selected_vm,
            app_core_unchanged(*old(self), *final(self)),
    {
        let cur = clone_screen(&self.screen);
        self.screen_stack.push(cur);
        self.screen = screen;
        self.selected_menu_item = 0;
        proof {
            assert(final(self).screen_stack@ =~= old(self).screen_stack@.push(old(self).screen));
        }
    }

    /// Go back to the previous screen, when there is one.
    pub fn pop_screen(&mut self)
        ensures
            old(self).screen_stack@.len() > 0 ==> (final(self).screen
                == old(self).screen_stack@.last() && final(self).screen_stack@
                == old(self).screen_stack@.drop_last()),
            old(self).screen_stack@.len() == 0 ==> (final(self).screen == old(self).screen
                && final(self).screen_stack@ == old(self).screen_stack@),
            final(self).selected_menu_item == old(self).selected_menu_item,
            final(self).selected_vm == old(self).selected_vm,
            app_core_unchanged(*old(self), *final(self)),
    {
        if let Some(prev) = self.screen_stack.pop() {
            self.screen = prev;
        }
    }

    /// Move the machine selection up by one, when possible.
    pub fn select_prev(&mut self)
        ensures
            final(self).selected_vm == (if old(self).filtered_indices@.len() > 0 && old(self).selected_vm > 0 {
                (old(self).selected_vm - 1) as usize
            } else {
                old(self).selected_vm
            }),
            final(self).screen == old(self).screen,
            final(self).screen_stack@ == old(self).screen_stack@,
            final(self).selected_menu_item == old(self).selected_menu_item,
            app_core_unchanged(*old(self), *final(self)),
    {
        if self.filtered_indices.len() > 0 && self.selected_vm > 0 {
            self.selected_vm = self.selected_vm - 1;
        }
    }

    /// Move the machine selection down by one, when possible.
    pub fn select_next(&mut self)
        ensures
            final(self).selected_vm == (if old(self).filtered_indices@.len() > 0 && old(self).selected_vm < old(self).filtered_indices@.len() - 1 {
                (old(self).selected_vm + 1) as usize
            } else {
                old(self).selected_vm
            }),
            final(self).screen == old(self).screen,
            final(self).screen_stack@ == old(self).screen_stack@,
            final(self).selected_menu_item == old(self).selected_menu_item,
            app_core_unchanged(*old(self), *final(self)),
    {
        if self.filtered_indices.len() > 0 && self.selected_vm < self.filtered_indices.len() - 1 {
            self.selected_vm = self.selected_vm + 1;
        }
    }

    /// Move the menu selection up by one, when possible.
    pub fn menu_prev(&mut self)
        ensures
            final(self).selected_menu_item == (if old(self).selected_menu_item > 0 {
                (old(self).selected_menu_item - 1) as usize
            } else {
                0usize
            }),
            final(self).screen == old(self).screen,
            final(self).screen_stack@ == old(self).screen_stack@,
            final(self).selected_vm == old(self).selected_vm,
            app_core_unchanged(*old(self), *final(self)),
    {
        if self.selected_menu_item > 0 {
            self.selected_menu_item = self.selected_menu_item - 1;
        }
    }

    /// Move the menu selection down by one, staying under `max_items`.
    pub fn menu_next(&mut self, max_items: usize)
        ensures
            final(self).selected_menu_item == (if max_items > 0 && old(self).selected_menu_item
                < max_items - 1 {
                (old(self).selected_menu_item + 1) as usize
            } else {
                old(self).selected_menu_item
            }),
            final(self).screen == old(self).screen,
            final(self).screen_stack@ == old(self).screen_stack@,
            final(self).selected_vm == old(self).selected_vm,
            app_core_unchanged(*old(self), *final(self)),
    {
        if max_items > 0 && self.selected_menu_item < max_items - 1 {
            self.selected_menu_item = self.selected_menu_item + 1;
        }
    }

    /// Recompute the filtered indices from the search query: everything
    /// when the query is empty, otherwise every machine whose display name
    /// or identifier contains the lower-cased query; the selection is
    /// clamped back into range.
    pub fn update_filter(&mut self)
        ensures
            spec_filter_ok(*final(self)),
            final(self).selected_vm == (if old(self).selected_vm < final(self).filtered_indices@.len() {
                old(self).selected_vm
            } else if final(self).filtered_indices@.len() > 0 {
                (final(self).filtered_indices@.len() - 1) as usize
            } else {
                0usize
            }),
            final(self).vms@ == old(self).vms@,
            final(self).search_query@ == old(self).search_query@,
            final(self).screen == old(self).screen,
            final(self).screen_stack@ == old(self).screen_stack@,
            final(self).selected_menu_item == old(self).selected_menu_item,
            final(self).ascii_art.art@ == old(self).ascii_art.art@,
            final(self).snapshots@ == old(self).snapshots@,
            final(self).selected_snapshot == old(self).selected_snapshot,
            final(self).usb_devices@ == old(self).usb_devices@,
            final(self).selected_usb_devices@ == old(self).selected_usb_devices@,
            final(self).boot_mode == old(self).boot_mode,
            final(self).input_mode == old(self).input_mode,
            final(self).status_message == old(self).status_message,
            final(self).should_quit == old(self).should_quit,
    {
        if self.search_query.as_str().unicode_len() == 0 {
            let n = self.vms.len();
            let mut fi: Vec<usize> = Vec::new();
            let mut i: usize = 0;
            while i < n
                invariant
                    0 <= i <= n,
                    fi@.len() == i,
                    forall|k: int| 0 <= k < i ==> fi@[k] == k,
                decreases n - i,
            {
                fi.push(i);
                i += 1;
            }
            self.filtered_indices = fi;
        } else {
            let q = lower_string(self.search_query.as_str());
            let ghost qv = q@;
            let ghost vmsv = self.vms@;
            let mut fi: Vec<usize> = Vec::new();
            let mut i: usize = 0;
            proof {
                assert(spec_query_filter(vmsv, qv, 0) == spec_query_filter(vmsv, qv, 0));
            }
            while i < self.vms.len()
                invariant
                    0 <= i <= self.vms@.len(),
                    self.vms@ == vmsv,
                    qv == q@,
                    fi@.len() + spec_query_filter(vmsv, qv, i as int).len() == spec_query_filter(
                        vmsv,
                        qv,
                        0,
                    ).len(),
                    forall|k: int|
                        0 <= k < fi@.len() ==> #[trigger] fi@[k] as int == spec_query_filter(
                            vmsv,
                            qv,
                            0,
                        )[k],
                    spec_query_filter(vmsv, qv, 0).skip(fi@.len() as int) == spec_query_filter(
                        vmsv,
                        qv,
                        i as int,
                    ),
                decreases self.vms@.len() - i,
            {
                let dn = self.vms[i].display_name();
                let dl = lower_string(dn.as_str());
                let il = lower_string(self.vms[i].id.as_str());
                let hit = contains_sub(dl.as_str(), q.as_str()) || contains_sub(
                    il.as_str(),
                    q.as_str(),
                );
                proof {
                    assert(spec_query_filter(vmsv, qv, i as int) == (if spec_vm_matches_query(
                        vmsv[i as int],
                        qv,
                    ) {
                        seq![i as int]
                    } else {
                        Seq::<int>::empty()
                    }) + spec_query_filter(vmsv, qv, i as int + 1));
                    if spec_vm_matches_query(vmsv[i as int], qv) {
                        assert(spec_query_filter(vmsv, qv, i as int)[0] == i as int);
                        assert(spec_query_filter(vmsv, qv, i as int).drop_first()
                            =~= spec_query_filter(vmsv, qv, i as int + 1));
                        assert(spec_query_filter(vmsv, qv, 0)[fi@.len() as int] == i as int);
                        assert(spec_query_filter(vmsv, qv, 0).skip(fi@.len() as int + 1)
                            =~= spec_query_filter(vmsv, qv, i as int + 1));
                    } else {
                        assert(Seq::<int>::empty() + spec_query_filter(vmsv, qv, i as int + 1)
                            =~= spec_query_filter(vmsv, qv, i as int + 1));
                    }
                }
                if hit {
                    fi.push(i);
                }
                i += 1;
            }
            proof {
                assert(spec_query_filter(vmsv, qv, vmsv.len() as int).len() == 0);
            }
            self.filtered_indices = fi;
        }
        if self.selected_vm >= self.filtered_indices.len() {
            if self.filtered_indices.len() > 0 {
                self.selected_vm = self.filtered_indices.len() - 1;
            } else {
                self.selected_vm = 0;
            }
        }
    }

    /// Replace the machine list with a freshly discovered one and
    /// recompute the filter.
    pub fn refresh_vms(&mut self, vms: Vec<DiscoveredVm>)
        ensures
            final(self).vms@ == vms@,
            spec_filter_ok(*final(self)),
            final(self).selected_vm == (if old(self).selected_vm < final(self).filtered_indices@.len() {
                old(self).selected_vm
            } else if final(self).filtered_indices@.len() > 0 {
                (final(self).filtered_indices@.len() - 1) as usize
            } else {
                0usize
            }),
            app_unchanged_except_vms_filter(*old(self), *final(self)),
    {
        self.vms = vms;
        self.update_filter();
    }

    /// Replace the snapshot cache with a freshly loaded list.
    pub fn load_snapshots(&mut self, snapshots: Vec<Snapshot>)
        ensures
            final(self).snapshots@ == snapshots@,
            final(self).selected_snapshot == 0,
            app_unchanged_except_snapshots(*old(self), *final(self)),
    {
        self.snapshots = snapshots;
        self.selected_snapshot = 0;
    }

    /// Replace the USB device cache and clear the passthrough choice.
    pub fn load_usb_devices(&mut self, devices: Vec<UsbDevice>)
        ensures
            final(self).usb_devices@ == devices@,
            final(self).selected_usb_devices@.len() == 0,
            app_unchanged_except_usb(*old(self), *final(self)),
    {
        self.usb_devices = devices;
        self.selected_usb_devices = Vec::new();
    }

    /// Toggle one device's passthrough choice: the first stored occurrence
    /// of the index is removed, or the index is added.
    pub fn toggle_usb_device(&mut self, index: usize)
        ensures
            match spec_first_eq(old(self).selected_usb_devices@, index, 0) {
                Some(p) => final(self).selected_usb_devices@ == old(self).selected_usb_devices@.remove(p),
                None => final(self).selected_usb_devices@ == old(self).selected_usb_devices@.push(index),
            },
            app_unchanged_except_usb_selection(*old(self), *final(self)),
    {
        let n = self.selected_usb_devices.len();
        let mut t: usize = 0;
        while t < n
            invariant
                0 <= t <= n,
                n == self.selected_usb_devices@.len(),
                *self == *old(self),
                spec_first_eq(old(self).selected_usb_devices@, index, 0) == spec_first_eq(
                    old(self).selected_usb_devices@,
                    index,
                    t as int,
                ),
            decreases n - t,
        {
            if self.selected_usb_devices[t] == index {
                self.selected_usb_devices.remove(t);
                return ;
            }
            t += 1;
        }
        self.selected_usb_devices.push(index);
    }

    /// The launch options the current state implies: the boot mode and the
    /// chosen passthrough devices.
    pub fn get_launch_options(&self) -> (r: LaunchOptions)
        ensures
            r.boot_mode == self.boot_mode,
            r.extra_args@.len() == 0,
            r.usb_devices@.len() == spec_usb_selection(
                self.selected_usb_devices@,
                self.usb_devices@,
            ).len(),
            forall|k: int|
                0 <= k < r.usb_devices@.len() ==> {
                    let want = spec_usb_selection(
                        self.selected_usb_devices@,
                        self.usb_devices@,
                    )[k];
                    (#[trigger] r.usb_devices@[k]).vendor_id == want.0 && r.usb_devices@[
                        k].product_id == want.1
                },
    {
        let ghost sel = self.selected_usb_devices@;
        let ghost devs = self.usb_devices@;
        let mut usb: Vec<UsbPassthrough> = Vec::new();
        let mut t: usize = 0;
        proof {
            assert(sel.skip(0) =~= sel);
        }
        while t < self.selected_usb_devices.len()
            invariant
                0 <= t <= sel.len(),
                sel == self.selected_usb_devices@,
                devs == self.usb_devices@,
                usb@.len() + spec_usb_selection(sel.skip(t as int), devs).len()
                    == spec_usb_selection(sel, devs).len(),
                forall|k: int|
                    0 <= k < usb@.len() ==> {
                        let want = spec_usb_selection(sel, devs)[k];
                        (#[trigger] usb@[k]).vendor_id == want.0 && usb@[k].product_id == want.1
                    },
                spec_usb_selection(sel, devs).skip(usb@.len() as int) == spec_usb_selection(
                    sel.skip(t as int),
                    devs,
                ),
            decreases sel.len() - t,
        {
            let idx = self.selected_usb_devices[t];
            proof {
                assert(sel.skip(t as int)[0] == sel[t as int]);
                assert(sel.skip(t as int).drop_first() =~= sel.skip(t as int + 1));
            }
            if idx < self.usb_devices.len() {
                let d = &self.usb_devices[idx];
                usb.push(UsbPassthrough { vendor_id: d.vendor_id, product_id: d.product_id });
                proof {
                    let full = spec_usb_selection(sel, devs);
                    assert(full[usb@.len() - 1] == spec_usb_selection(sel.skip(t as int), devs)[
                        0]);
                    assert(full.skip(usb@.len() as int) =~= spec_usb_selection(
                        sel.skip(t as int),
                        devs,
                    ).drop_first());
                    assert(spec_usb_selection(sel.skip(t as int), devs).drop_first()
                        =~= spec_usb_selection(sel.skip(t as int + 1), devs));
                }
            } else {
                proof {
                    assert(Seq::<(u16, u16)>::empty() + spec_usb_selection(
                        sel.skip(t as int + 1),
                        devs,
                    ) =~= spec_usb_selection(sel.skip(t as int + 1), devs));
                }
            }
            t += 1;
        }
        proof {
            assert(sel.skip(sel.len() as int).len() == 0);
        }
        let boot_mode = match &self.boot_mode {
            BootMode::Normal => BootMode::Normal,
            BootMode::Install => BootMode::Install,
            BootMode::CustomIso(p) => BootMode::CustomIso(p.clone()),
        };
        LaunchOptions { boot_mode, extra_args: Vec::new(), usb_devices: usb }
    }

    /// Show a status message.
    pub fn set_status(&mut self, msg: String)
        ensures
            final(self).status_message matches Some(m) && m@ == msg@,
            app_unchanged_except_status(*old(self), *final(self)),
    {
        self.status_message = Some(msg);
    }

    /// Clear the status message.
    pub fn clear_status(&mut self)
        ensures
            final(self).status_message is None,
            app_unchanged_except_status(*old(self), *final(self)),
    {
        self.status_message = None;
    }

    /// The machines grouped by category for display.
    pub fn grouped_vms(&self) -> (r: Vec<(&'static str, Vec<&DiscoveredVm>)>)
        ensures
            crate::discovery::spec_groups_match(r@, self.vms@),
    {
        group_vms_by_category(&self.vms)
    }
}

} // verus!
