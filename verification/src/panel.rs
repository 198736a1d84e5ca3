//! This machine's own values: in the panel, and in the popup.
use crate::applet::{Screen, Sysmon};
use crate::pieces;
use crate::pieces::{Part, Piece, Quantity};
use crate::remote;
use crate::remote::{Detail, Fact, Icon};
use crate::sensors::Sample;
use crate::text;
use vstd::prelude::*;

verus! {

// ---------------------------------------------------------------- the panel

/// Panel entries as characters.
pub open spec fn entries(list: Seq<(Icon, Vec<Piece>)>) -> Seq<(Icon, Seq<Part>)> {
    list.map_values(|p: (Icon, Vec<Piece>)| (p.0, pieces::line(p.1@)))
}

/// A number of fixed width and a unit. Fixed widths keep the panel from
/// twitching when a value drops below ten.
pub open spec fn fixed(value: Quantity, width: u8, unit: Seq<char>) -> Seq<Part> {
    seq![Part::Number { value, decimals: 0, width }, Part::Words(unit)]
}

/// What the panel shows.
pub open spec fn panel_of(s: Sample) -> Seq<(Icon, Seq<Part>)> {
    seq![
        (Icon::Cpu, fixed(Quantity::Single(s.cpu_load), 2, " %"@)),
        (
            Icon::Ram,
            fixed(Quantity::Percent { used: s.mem_used, total: s.mem_total }, 2, " %"@),
        ),
        (
            Icon::Vram,
            fixed(Quantity::Percent { used: s.vram_used, total: s.vram_total }, 2, " %"@),
        ),
        (
            Icon::Power,
            if s.cpu_watts_available {
                fixed(Quantity::Sum(s.cpu_watts, s.gpu_watts), 3, " W"@)
            } else {
                seq![Part::Words("--- W"@)]
            },
        ),
        (Icon::Gpu, fixed(Quantity::Single(s.gpu_watts), 3, " W"@)),
    ]
}

fn fixed_pieces(value: Quantity, width: u8, unit: &str) -> (r: Vec<Piece>)
    ensures
        pieces::line(r@) == fixed(value, width, unit@),
{
    let line = pieces::number(pieces::no_pieces(), value, 0, width);
    let line = pieces::words(line, unit);
    assert(pieces::line(line@) =~= fixed(value, width, unit@));
    line
}

/// The entries of the panel button: percentages use two digits, watts three.
pub fn panel(s: &Sample) -> (r: Vec<(Icon, Vec<Piece>)>)
    ensures
        entries(r@) == panel_of(*s),
{
    let power = if s.cpu_watts_available {
        fixed_pieces(Quantity::Sum(s.cpu_watts, s.gpu_watts), 3, " W")
    } else {
        pieces::plain("--- W")
    };
    let memory = Quantity::Percent { used: s.mem_used, total: s.mem_total };
    let vram = Quantity::Percent { used: s.vram_used, total: s.vram_total };
    let mut out: Vec<(Icon, Vec<Piece>)> = Vec::new();
    out.push((Icon::Cpu, fixed_pieces(Quantity::Single(s.cpu_load), 2, " %")));
    out.push((Icon::Ram, fixed_pieces(memory, 2, " %")));
    out.push((Icon::Vram, fixed_pieces(vram, 2, " %")));
    out.push((Icon::Power, power));
    out.push((Icon::Gpu, fixed_pieces(Quantity::Single(s.gpu_watts), 3, " W")));
    assert(entries(out@) =~= panel_of(*s));
    out
}

// ---------------------------------------------------------------- the popup

/// The time that a number of samples covers: seconds, or minutes from the first
/// full one on.
pub open spec fn covered(samples: usize) -> Seq<Part> {
    if samples < 60 {
        seq![Part::Words(text::decimal(samples as nat) + " s"@)]
    } else {
        seq![pieces::round(Quantity::Minutes(samples)), Part::Words(" min"@)]
    }
}

/// The line in the header of the popup.
pub open spec fn header_line(samples: usize) -> Seq<Part> {
    seq![Part::Words(text::decimal(samples as nat) + " Werte · "@)] + covered(samples) + seq![
        Part::Words(" · 1 s Takt"@),
    ]
}

/// Header of the popup: how much history there is.
pub fn popup_header(samples: usize) -> (r: Vec<Piece>)
    ensures
        pieces::line(r@) == header_line(samples),
{
    let number = text::from_u64(samples as u64);
    let head = text::cat2(number.as_str(), " Werte · ");
    let line = pieces::words(pieces::no_pieces(), head.as_str());
    let line = if samples < 60 {
        let time = text::cat2(number.as_str(), " s");
        pieces::words(line, time.as_str())
    } else {
        let line = pieces::number(line, Quantity::Minutes(samples), 0, 0);
        pieces::words(line, " min")
    };
    let line = pieces::words(line, " · 1 s Takt");
    assert(pieces::line(line@) =~= header_line(samples));
    line
}

/// The pages of the popup.
#[derive(Debug, Clone, Copy, PartialEq, Eq, Structural)]
pub enum Page {
    Processes,
    Models,
    Installer,
    Settings,
    Values,
}

/// The page that is shown: the process page hides all others, then the models,
/// the installer and the settings.
pub open spec fn page_of(s: Screen) -> Page {
    if s.procs_open {
        Page::Processes
    } else if s.models_open is Some {
        Page::Models
    } else if s.installing || s.install_host.len() > 0 {
        Page::Installer
    } else if s.settings_open {
        Page::Settings
    } else {
        Page::Values
    }
}

impl Sysmon {
    /// The page that is shown.
    pub fn page(&self) -> (r: Page)
        ensures
            r == page_of(self@),
    {
        if self.procs_open {
            Page::Processes
        } else if self.models_open.is_some() {
            Page::Models
        } else if self.installing || !text::is_empty(self.install_host.as_str()) {
            Page::Installer
        } else if self.settings_open {
            Page::Settings
        } else {
            Page::Values
        }
    }
}

/// Used and installed, and how many percent that is.
pub open spec fn usage(used: u32, total: u32) -> Seq<Part> {
    seq![
        pieces::single(used, 0),
        Part::Words("/"@),
        pieces::single(total, 0),
        Part::Words(" GiB "@),
        pieces::round(Quantity::Percent { used, total }),
        Part::Words(" %"@),
    ]
}

/// The values of this machine.
pub open spec fn value_facts(s: Sample) -> Seq<Fact> {
    seq![
        remote::row(
            Icon::Cpu,
            "CPU-Auslastung"@,
            seq![pieces::single(s.cpu_load, 0), Part::Words(" %"@)],
        ),
        remote::row(Icon::Ram, "Arbeitsspeicher"@, usage(s.mem_used, s.mem_total)),
        remote::row(
            Icon::Gpu,
            "GPU-Auslastung"@,
            seq![pieces::single(s.gpu_load, 0), Part::Words(" %"@)],
        ),
        remote::row(Icon::Vram, "GPU-VRAM"@, usage(s.vram_used, s.vram_total)),
        remote::row(
            Icon::Power,
            "Leistung CPU-Paket"@,
            if s.cpu_watts_available {
                seq![pieces::single(s.cpu_watts, 1), Part::Words(" W"@)]
            } else {
                seq![Part::Words("nicht lesbar"@)]
            },
        ),
        remote::row(
            Icon::Gpu,
            "Leistung GPU"@,
            seq![pieces::single(s.gpu_watts, 1), Part::Words(" W"@)],
        ),
        remote::row(
            Icon::Power,
            "Leistung System"@,
            if s.cpu_watts_available {
                seq![
                    Part::Number {
                        value: Quantity::Sum(s.cpu_watts, s.gpu_watts),
                        decimals: 1,
                        width: 0,
                    },
                    Part::Words(" W"@),
                ]
            } else {
                seq![pieces::single(s.gpu_watts, 1), Part::Words(" W (nur GPU)"@)]
            },
        ),
    ]
}

fn measured(value: Quantity, decimals: u8, unit: &str) -> (r: Vec<Piece>)
    ensures
        pieces::line(r@) == seq![
            Part::Number { value, decimals, width: 0 },
            Part::Words(unit@),
        ],
{
    let line = pieces::number(pieces::no_pieces(), value, decimals, 0);
    let line = pieces::words(line, unit);
    assert(pieces::line(line@) =~= seq![
        Part::Number { value, decimals, width: 0 },
        Part::Words(unit@),
    ]);
    line
}

fn usage_pieces(used: u32, total: u32) -> (r: Vec<Piece>)
    ensures
        pieces::line(r@) == usage(used, total),
{
    let line = pieces::number(pieces::no_pieces(), Quantity::Single(used), 0, 0);
    let line = pieces::words(line, "/");
    let line = pieces::number(line, Quantity::Single(total), 0, 0);
    let line = pieces::words(line, " GiB ");
    let line = pieces::number(line, Quantity::Percent { used, total }, 0, 0);
    let line = pieces::words(line, " %");
    assert(pieces::line(line@) =~= usage(used, total));
    line
}

/// The values of this machine for the popup.
pub fn local_values(s: &Sample) -> (r: Vec<Detail>)
    ensures
        remote::facts(r@) == value_facts(*s),
{
    let mut list: Vec<Detail> = Vec::new();
    assert(remote::facts(list@) =~= Seq::empty());
    let package = if s.cpu_watts_available {
        measured(Quantity::Single(s.cpu_watts), 1, " W")
    } else {
        pieces::plain("nicht lesbar")
    };
    let system = if s.cpu_watts_available {
        measured(Quantity::Sum(s.cpu_watts, s.gpu_watts), 1, " W")
    } else {
        measured(Quantity::Single(s.gpu_watts), 1, " W (nur GPU)")
    };
    remote::add_row(
        &mut list,
        Icon::Cpu,
        "CPU-Auslastung",
        measured(Quantity::Single(s.cpu_load), 0, " %"),
    );
    remote::add_row(
        &mut list,
        Icon::Ram,
        "Arbeitsspeicher",
        usage_pieces(s.mem_used, s.mem_total),
    );
    remote::add_row(
        &mut list,
        Icon::Gpu,
        "GPU-Auslastung",
        measured(Quantity::Single(s.gpu_load), 0, " %"),
    );
    remote::add_row(
        &mut list,
        Icon::Vram,
        "GPU-VRAM",
        usage_pieces(s.vram_used, s.vram_total),
    );
    remote::add_row(&mut list, Icon::Power, "Leistung CPU-Paket", package);
    remote::add_row(
        &mut list,
        Icon::Gpu,
        "Leistung GPU",
        measured(Quantity::Single(s.gpu_watts), 1, " W"),
    );
    remote::add_row(&mut list, Icon::Power, "Leistung System", system);
    assert(remote::facts(list@) =~= value_facts(*s));
    list
}

/// The footnote on the power values.
pub fn power_note(s: &Sample) -> (r: &'static str)
    ensures
        r@ == (if s.cpu_watts_available {
            "Leistung = RAPL CPU-Paket + alle AMD-GPUs (hwmon). Ein Netzteil-Sensor ist auf diesem System nicht vorhanden."@
        } else {
            "CPU-Paket-Leistung nicht lesbar: /sys/class/powercap/intel-rapl:0/energy_uj ist nur für root lesbar. Angezeigt wird nur die GPU-Leistung."@
        }),
{
    if s.cpu_watts_available {
        "Leistung = RAPL CPU-Paket + alle AMD-GPUs (hwmon). Ein Netzteil-Sensor ist auf diesem System nicht vorhanden."
    } else {
        "CPU-Paket-Leistung nicht lesbar: /sys/class/powercap/intel-rapl:0/energy_uj ist nur für root lesbar. Angezeigt wird nur die GPU-Leistung."
    }
}

/// The panel shows, in this order, the load of the processor, the memory, the
/// memory of the graphics card, the power of both and that of the card.
pub proof fn the_panel_shows_five_values(s: Sample)
    ensures
        ({
            let p = panel_of(s);
            &&& p.len() == 5
            &&& p[0].0 == Icon::Cpu && p[0].1[0] == (Part::Number {
                value: Quantity::Single(s.cpu_load),
                decimals: 0,
                width: 2,
            })
            &&& p[1].0 == Icon::Ram && p[1].1[0] == (Part::Number {
                value: Quantity::Percent { used: s.mem_used, total: s.mem_total },
                decimals: 0,
                width: 2,
            })
            &&& p[2].0 == Icon::Vram && p[2].1[0] == (Part::Number {
                value: Quantity::Percent { used: s.vram_used, total: s.vram_total },
                decimals: 0,
                width: 2,
            })
            &&& p[3].0 == Icon::Power
            &&& s.cpu_watts_available ==> p[3].1[0] == (Part::Number {
                value: Quantity::Sum(s.cpu_watts, s.gpu_watts),
                decimals: 0,
                width: 3,
            }) && p[3].1[1] == Part::Words(" W"@)
            &&& !s.cpu_watts_available ==> p[3].1 == seq![Part::Words("--- W"@)]
            &&& p[4].0 == Icon::Gpu && p[4].1[0] == (Part::Number {
                value: Quantity::Single(s.gpu_watts),
                decimals: 0,
                width: 3,
            })
            &&& p[0].1[1] == Part::Words(" %"@) && p[1].1[1] == Part::Words(" %"@) && p[2].1[1]
                == Part::Words(" %"@) && p[4].1[1] == Part::Words(" W"@)
        }),
{
}

/// Less than a minute of samples is told in seconds, more in minutes.
pub proof fn the_header_tells_the_time(samples: usize)
    ensures
        ({
            let line = header_line(samples);
            &&& line[0] == Part::Words(text::decimal(samples as nat) + " Werte · "@)
            &&& line.last() == Part::Words(" · 1 s Takt"@)
            &&& samples < 60 ==> line.len() == 3 && line[1] == Part::Words(
                text::decimal(samples as nat) + " s"@,
            )
            &&& samples >= 60 ==> line.len() == 4 && line[1] == pieces::round(
                Quantity::Minutes(samples),
            ) && line[2] == Part::Words(" min"@)
        }),
{
}

/// The process page hides all others, then the models, the installer and the
/// settings; without any of them the values are shown.
pub proof fn pages_hide_each_other(s: Screen)
    ensures
        s.procs_open <==> page_of(s) == Page::Processes,
        page_of(s) == Page::Models <==> !s.procs_open && s.models_open is Some,
        page_of(s) == Page::Installer <==> !s.procs_open && s.models_open is None && (s.installing
            || s.install_host.len() > 0),
        page_of(s) == Page::Settings <==> !s.procs_open && s.models_open is None && !s.installing
            && s.install_host.len() == 0 && s.settings_open,
{
}

/// Each value of this machine stands behind its own name.
pub proof fn values_stand_behind_their_names(s: Sample)
    ensures
        ({
            let f = value_facts(s);
            let percent = |v: u32| seq![pieces::single(v, 0), Part::Words(" %"@)];
            let watts = |v: u32| seq![pieces::single(v, 1), Part::Words(" W"@)];
            &&& f.len() == 7
            &&& f[0] == remote::row(Icon::Cpu, "CPU-Auslastung"@, percent(s.cpu_load))
            &&& f[1] == remote::row(
                Icon::Ram,
                "Arbeitsspeicher"@,
                usage(s.mem_used, s.mem_total),
            )
            &&& f[2] == remote::row(Icon::Gpu, "GPU-Auslastung"@, percent(s.gpu_load))
            &&& f[3] == remote::row(Icon::Vram, "GPU-VRAM"@, usage(s.vram_used, s.vram_total))
            &&& s.cpu_watts_available ==> f[4] == remote::row(
                Icon::Power,
                "Leistung CPU-Paket"@,
                watts(s.cpu_watts),
            )
            &&& !s.cpu_watts_available ==> f[4] == remote::row(
                Icon::Power,
                "Leistung CPU-Paket"@,
                seq![Part::Words("nicht lesbar"@)],
            )
            &&& f[5] == remote::row(Icon::Gpu, "Leistung GPU"@, watts(s.gpu_watts))
            &&& s.cpu_watts_available ==> f[6] == remote::row(
                Icon::Power,
                "Leistung System"@,
                seq![
                    Part::Number {
                        value: Quantity::Sum(s.cpu_watts, s.gpu_watts),
                        decimals: 1,
                        width: 0,
                    },
                    Part::Words(" W"@),
                ],
            )
            &&& !s.cpu_watts_available ==> f[6] == remote::row(
                Icon::Power,
                "Leistung System"@,
                seq![pieces::single(s.gpu_watts, 1), Part::Words(" W (nur GPU)"@)],
            )
        }),
{
}

/// Usage is used of installed, and the share of it.
pub proof fn usage_is_a_share(used: u32, total: u32)
    ensures
        usage(used, total).len() == 6,
        usage(used, total)[0] == pieces::single(used, 0),
        usage(used, total)[2] == pieces::single(total, 0),
        usage(used, total)[4] == pieces::round(Quantity::Percent { used, total }),
{
}

} // verus!
