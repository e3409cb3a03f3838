//! The state of the application that consumes the engine's events: the
//! list of hosts, the selection in the table, and the statistics.

use vstd::prelude::*;
use crate::averages::averages;
use crate::event::{ScannerEvent, ScannerInputEvent};
use crate::host::{Host, assign_speeds, clean_host_and_olders, known_at, note_host, unknown, with_speed};
use crate::stats_aggregator::{StatsAggregator, Windows, bits_total};

verus! {

/// The height of a table row in scroll units.
pub const ITEM_HEIGHT: usize = 4;

/// The index of the last column that can be selected.
pub const LAST_COLUMN: usize = 2;

/// A key of the keyboard, as far as the application tells keys apart.
#[derive(Clone, Copy, Debug, PartialEq, Eq, Structural)]
pub enum KeyCode {
    Esc,
    Char(char),
    Other,
}

/// A key press.
#[derive(Clone, Copy, Debug, PartialEq, Eq, Structural)]
pub struct KeyPress {
    pub code: KeyCode,
    /// Control, and no other modifier, was held.
    pub control: bool,
}

/// The application.
pub struct App {
    /// Is the application running?
    pub running: bool,
    /// Is a scan under way?
    pub sending_arps: bool,
    /// The hosts found so far.
    pub hosts: Vec<Host>,
    /// The selected row of the table.
    pub selected_row: Option<usize>,
    /// The selected column of the table.
    pub selected_column: Option<usize>,
    /// The position of the scrollbar.
    pub scroll_position: usize,
    /// The length of what the scrollbar scrolls over.
    pub scroll_content_length: usize,
    /// The name of the interface.
    pub interface: String,
    /// The traffic statistics.
    pub stats_aggregator: StatsAggregator,
}

/// The scroll units of `rows` rows, as far as they can be counted.
pub open spec fn scroll_units(rows: int) -> int {
    if rows * ITEM_HEIGHT <= usize::MAX {
        rows * ITEM_HEIGHT
    } else {
        usize::MAX as int
    }
}

fn units(rows: usize) -> (u: usize)
    ensures
        u == scroll_units(rows as int),
{
    if rows <= usize::MAX / ITEM_HEIGHT {
        rows * ITEM_HEIGHT
    } else {
        usize::MAX
    }
}

/// The row after `selected` in a table of `len` rows: the first row if
/// none is selected, none after the last row.
pub open spec fn row_after(selected: Option<usize>, len: nat) -> Option<usize> {
    match selected {
        Some(i) => if i + 1 >= len {
            None
        } else {
            Some((i + 1) as usize)
        },
        None => Some(0),
    }
}

/// The row before `selected` in a table of `len` rows: the last row if
/// none is selected, none before the first row.
pub open spec fn row_before(selected: Option<usize>, len: nat) -> Option<usize> {
    match selected {
        Some(i) => if i == 0 {
            None
        } else {
            Some((i - 1) as usize)
        },
        None => Some(
            if len == 0 {
                0usize
            } else {
                (len - 1) as usize
            },
        ),
    }
}

/// The column after `selected`: the first if none is selected, none after
/// the last.
pub open spec fn column_after(selected: Option<usize>) -> Option<usize> {
    match selected {
        None => Some(0usize),
        Some(c) => if c == LAST_COLUMN {
            None
        } else if c == usize::MAX {
            Some(c)
        } else {
            Some((c + 1) as usize)
        },
    }
}

/// The column before `selected`: the last possible if none is selected,
/// none before the first.
pub open spec fn column_before(selected: Option<usize>) -> Option<usize> {
    match selected {
        None => Some(usize::MAX),
        Some(c) => if c == 0 {
            None
        } else {
            Some((c - 1) as usize)
        },
    }
}

/// Where the scrollbar stands when `selected` has been reached by going
/// down in a table of `len` rows: at the selected row, or at the last row
/// if none is selected.
pub open spec fn scroll_down_to(selected: Option<usize>, len: nat) -> int {
    scroll_units(
        match selected {
            Some(i) => i as int,
            None => if len == 0 {
                0
            } else {
                len - 1
            },
        },
    )
}

/// Where the scrollbar stands when `selected` has been reached by going
/// up: at the selected row, or at the top if none is selected.
pub open spec fn scroll_up_to(selected: Option<usize>) -> int {
    scroll_units(
        match selected {
            Some(i) => i as int,
            None => 0,
        },
    )
}

impl App {
    /// The statistics are well formed.
    pub open spec fn wf(&self) -> bool {
        self.stats_aggregator.wf()
    }

    /// An application that runs, has found no host, and has selected nothing.
    pub fn new() -> (app: App)
        ensures
            app.wf(),
            app.running,
            !app.sending_arps,
            app.hosts@ == Seq::<Host>::empty(),
            app.selected_row is None,
            app.selected_column is None,
            app.scroll_position == 0,
            app.scroll_content_length == 0,
            app.interface@ == Seq::<char>::empty(),
            app.stats_aggregator@ == Windows::fresh(crate::stats_aggregator::DEFAULT_WINDOW as nat),
    {
        App {
            running: true,
            sending_arps: false,
            hosts: Vec::new(),
            selected_row: None,
            selected_column: None,
            scroll_position: 0,
            scroll_content_length: 0,
            interface: String::new(),
            stats_aggregator: StatsAggregator::new(),
        }
    }

    /// The tick of the terminal, on which nothing happens.
    pub fn tick(&self) {
    }

    /// Stops the application.
    pub fn quit(&mut self)
        ensures
            !final(self).running,
            final(self).sending_arps == old(self).sending_arps,
            final(self).hosts == old(self).hosts,
            final(self).selected_row == old(self).selected_row,
            final(self).selected_column == old(self).selected_column,
            final(self).scroll_position == old(self).scroll_position,
            final(self).scroll_content_length == old(self).scroll_content_length,
            final(self).interface == old(self).interface,
            final(self).stats_aggregator == old(self).stats_aggregator,
    {
        self.running = false;
    }

    /// Selects the next row, and none after the last; the scrollbar goes
    /// to the selected row, or to the last row if none is selected.
    pub fn next_row(&mut self)
        ensures
            final(self).selected_row == row_after(old(self).selected_row, old(self).hosts@.len()),
            final(self).scroll_position == scroll_down_to(
                final(self).selected_row,
                old(self).hosts@.len(),
            ),
            final(self).running == old(self).running,
            final(self).sending_arps == old(self).sending_arps,
            final(self).hosts == old(self).hosts,
            final(self).selected_column == old(self).selected_column,
            final(self).scroll_content_length == old(self).scroll_content_length,
            final(self).interface == old(self).interface,
            final(self).stats_aggregator == old(self).stats_aggregator,
    {
        let len = self.hosts.len();
        let i = match self.selected_row {
            Some(i) => {
                if i >= len || i + 1 >= len {
                    None
                } else {
                    Some(i + 1)
                }
            },
            None => Some(0),
        };
        self.selected_row = i;
        let row = match i {
            Some(i) => i,
            None => if len == 0 {
                0
            } else {
                len - 1
            },
        };
        self.scroll_position = units(row);
    }

    /// Selects the previous row, and none before the first; the scrollbar
    /// goes to the selected row, or to the top if none is selected.
    pub fn previous_row(&mut self)
        ensures
            final(self).selected_row == row_before(old(self).selected_row, old(self).hosts@.len()),
            final(self).scroll_position == scroll_up_to(final(self).selected_row),
            final(self).running == old(self).running,
            final(self).sending_arps == old(self).sending_arps,
            final(self).hosts == old(self).hosts,
            final(self).selected_column == old(self).selected_column,
            final(self).scroll_content_length == old(self).scroll_content_length,
            final(self).interface == old(self).interface,
            final(self).stats_aggregator == old(self).stats_aggregator,
    {
        let len = self.hosts.len();
        let i = match self.selected_row {
            Some(i) => {
                if i == 0 {
                    None
                } else {
                    Some(i - 1)
                }
            },
            None => Some(
                if len == 0 {
                    0
                } else {
                    len - 1
                },
            ),
        };
        self.selected_row = i;
        let row = match i {
            Some(i) => i,
            None => 0,
        };
        self.scroll_position = units(row);
    }

    /// Selects the next column: the first if none is selected, none after
    /// the last.
    pub fn next_column(&mut self)
        ensures
            final(self).selected_column == column_after(old(self).selected_column),
            final(self).running == old(self).running,
            final(self).sending_arps == old(self).sending_arps,
            final(self).hosts == old(self).hosts,
            final(self).selected_row == old(self).selected_row,
            final(self).scroll_position == old(self).scroll_position,
            final(self).scroll_content_length == old(self).scroll_content_length,
            final(self).interface == old(self).interface,
            final(self).stats_aggregator == old(self).stats_aggregator,
    {
        self.selected_column = match self.selected_column {
            None => Some(0),
            Some(c) => if c == LAST_COLUMN {
                None
            } else if c == usize::MAX {
                Some(c)
            } else {
                Some(c + 1)
            },
        };
    }

    /// Selects the previous column: the last possible if none is selected,
    /// none before the first.
    pub fn previous_column(&mut self)
        ensures
            final(self).selected_column == column_before(old(self).selected_column),
            final(self).running == old(self).running,
            final(self).sending_arps == old(self).sending_arps,
            final(self).hosts == old(self).hosts,
            final(self).selected_row == old(self).selected_row,
            final(self).scroll_position == old(self).scroll_position,
            final(self).scroll_content_length == old(self).scroll_content_length,
            final(self).interface == old(self).interface,
            final(self).stats_aggregator == old(self).stats_aggregator,
    {
        self.selected_column = match self.selected_column {
            None => Some(usize::MAX),
            Some(c) => if c == 0 {
                None
            } else {
                Some(c - 1)
            },
        };
    }

    /// Takes in what the engine tells. A found host enters the list, or
    /// renews its record there while it keeps its speed; the begin and the
    /// completion of a scan set and clear the mark of a scan under way; the
    /// name of the interface is kept; the traffic of a second goes into the
    /// statistics, from which every host then takes the speed averaged for
    /// its address, unless the window's bits no longer fit 128 bits.
    pub fn handle_worker_events(&mut self, worker_event: ScannerEvent)
        requires
            old(self).wf(),
            worker_event matches ScannerEvent::StatTick(m) ==> m.wf(),
        ensures
            final(self).wf(),
            final(self).running == old(self).running,
            final(self).selected_row == old(self).selected_row,
            final(self).selected_column == old(self).selected_column,
            final(self).scroll_position == old(self).scroll_position,
            match worker_event {
                ScannerEvent::HostFound(host) => {
                    &&& final(self).sending_arps == old(self).sending_arps
                    &&& final(self).interface == old(self).interface
                    &&& final(self).stats_aggregator == old(self).stats_aggregator
                    &&& if unknown(old(self).hosts@, host) {
                        &&& final(self).hosts@ == old(self).hosts@.push(host)
                        &&& final(self).scroll_content_length == scroll_units(
                            old(self).hosts@.len() as int,
                        )
                    } else {
                        &&& final(self).scroll_content_length == old(self).scroll_content_length
                        &&& exists|i: int|
                            {
                                &&& #[trigger] known_at(old(self).hosts@, host, i)
                                &&& final(self).hosts@ == old(self).hosts@.update(
                                    i,
                                    Host {
                                        time: host.time,
                                        ipv4: host.ipv4,
                                        mac: host.mac,
                                        hostname: host.hostname,
                                        is_my_device_mac: host.is_my_device_mac,
                                        speed: old(self).hosts@[i].speed,
                                    },
                                )
                            }
                    }
                },
                ScannerEvent::Complete => {
                    &&& !final(self).sending_arps
                    &&& final(self).hosts == old(self).hosts
                    &&& final(self).interface == old(self).interface
                    &&& final(self).stats_aggregator == old(self).stats_aggregator
                    &&& final(self).scroll_content_length == old(self).scroll_content_length
                },
                ScannerEvent::BeginScan => {
                    &&& final(self).sending_arps
                    &&& final(self).hosts == old(self).hosts
                    &&& final(self).interface == old(self).interface
                    &&& final(self).stats_aggregator == old(self).stats_aggregator
                    &&& final(self).scroll_content_length == old(self).scroll_content_length
                },
                ScannerEvent::InterfaceName(name) => {
                    &&& final(self).interface == name
                    &&& final(self).sending_arps == old(self).sending_arps
                    &&& final(self).hosts == old(self).hosts
                    &&& final(self).stats_aggregator == old(self).stats_aggregator
                    &&& final(self).scroll_content_length == old(self).scroll_content_length
                },
                ScannerEvent::StatTick(m) => {
                    &&& final(self).sending_arps == old(self).sending_arps
                    &&& final(self).interface == old(self).interface
                    &&& final(self).scroll_content_length == old(self).scroll_content_length
                    &&& final(self).stats_aggregator@ == old(self).stats_aggregator@.ticked(m@)
                    &&& final(self).hosts@.len() == old(self).hosts@.len()
                    &&& forall|i: int|
                        0 <= i < old(self).hosts@.len() ==> (#[trigger] final(self).hosts@[i])
                            == if bits_total(final(self).stats_aggregator@.raw) <= u128::MAX {
                            with_speed(
                                old(self).hosts@[i],
                                averages(final(self).stats_aggregator@.hosts),
                            )
                        } else {
                            old(self).hosts@[i]
                        }
                },
            },
    {
        match worker_event {
            ScannerEvent::HostFound(host) => {
                let added = note_host(&mut self.hosts, host);
                if added {
                    self.scroll_content_length = units(self.hosts.len() - 1);
                }
            },
            ScannerEvent::Complete => {
                self.sending_arps = false;
            },
            ScannerEvent::BeginScan => {
                self.sending_arps = true;
            },
            ScannerEvent::InterfaceName(interface_name) => {
                self.interface = interface_name;
            },
            ScannerEvent::StatTick(hash_map) => {
                self.stats_aggregator.tick(hash_map);
                if self.stats_aggregator.fits() {
                    proof {
                        self.stats_aggregator.lemma_fits();
                    }
                    let speeds = self.stats_aggregator.speed_per_host();
                    assign_speeds(&mut self.hosts, &speeds);
                }
            },
        }
    }

    /// Takes in a key press, and returns what is to be asked of the engine:
    /// Escape and `q` stop the application, and so does `c` with Control;
    /// `c` without it removes the selected host and all hosts not seen
    /// since; `j`, `k`, `l` and `h` move the selection down, up, right and
    /// left; `s` asks for a scan unless one is under way.
    pub fn handle_key_events(&mut self, key_event: KeyPress) -> (command: Option<ScannerInputEvent>)
        ensures
            command == match key_event.code {
                KeyCode::Char(c) => if c == 's' && !old(self).sending_arps {
                    Some(ScannerInputEvent::StartScanning)
                } else {
                    None
                },
                _ => None,
            },
            final(self).running == (old(self).running && !(key_event.code is Esc || key_event.code
                == KeyCode::Char('q') || ((key_event.code == KeyCode::Char('c') || key_event.code
                == KeyCode::Char('C')) && key_event.control))),
            final(self).sending_arps == old(self).sending_arps,
            final(self).interface == old(self).interface,
            final(self).stats_aggregator == old(self).stats_aggregator,
            final(self).scroll_content_length == old(self).scroll_content_length,
            final(self).selected_row == match key_event.code {
                KeyCode::Char(c) => if c == 'j' {
                    row_after(old(self).selected_row, old(self).hosts@.len())
                } else if c == 'k' {
                    row_before(old(self).selected_row, old(self).hosts@.len())
                } else {
                    old(self).selected_row
                },
                _ => old(self).selected_row,
            },
            final(self).selected_column == match key_event.code {
                KeyCode::Char(c) => if c == 'l' {
                    column_after(old(self).selected_column)
                } else if c == 'h' {
                    column_before(old(self).selected_column)
                } else {
                    old(self).selected_column
                },
                _ => old(self).selected_column,
            },
            final(self).scroll_position == match key_event.code {
                KeyCode::Char(c) => if c == 'j' {
                    scroll_down_to(final(self).selected_row, old(self).hosts@.len())
                } else if c == 'k' {
                    scroll_up_to(final(self).selected_row)
                } else {
                    old(self).scroll_position as int
                },
                _ => old(self).scroll_position as int,
            },
            !(key_event.code == KeyCode::Char('c') || key_event.code == KeyCode::Char('C'))
                || key_event.control ==> final(self).hosts == old(self).hosts,
            (key_event.code == KeyCode::Char('c') || key_event.code == KeyCode::Char('C'))
                && !key_event.control ==> final(self).hosts@ == match old(self).selected_row {
                Some(i) => if i < old(self).hosts@.len() {
                    old(self).hosts@.filter(|h: Host| h.time > old(self).hosts@[i as int].time)
                } else {
                    old(self).hosts@
                },
                None => old(self).hosts@,
            },
    {
        match key_event.code {
            KeyCode::Esc => {
                self.quit();
                None
            },
            KeyCode::Char(c) => {
                if c == 'q' {
                    self.quit();
                    None
                } else if c == 'c' || c == 'C' {
                    if key_event.control {
                        self.quit();
                    } else {
                        let _done = clean_host_and_olders(&mut self.hosts, self.selected_row);
                    }
                    None
                } else if c == 'j' {
                    self.next_row();
                    None
                } else if c == 'k' {
                    self.previous_row();
                    None
                } else if c == 'l' {
                    self.next_column();
                    None
                } else if c == 'h' {
                    self.previous_column();
                    None
                } else if c == 's' {
                    if !self.sending_arps {
                        Some(ScannerInputEvent::StartScanning)
                    } else {
                        None
                    }
                } else {
                    None
                }
            },
            KeyCode::Other => None,
        }
    }
}

} // verus!
