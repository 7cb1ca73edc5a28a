//! The interactive viewer's decisions: what each user action, and each
//! finished background job, does to the displayed state, and which job to
//! start next. Loading files, running the analysis and writing results are
//! jobs that the front end performs; it reports their outcome back as a
//! message.
use vstd::prelude::*;
use std::collections::HashMap;
use crate::analyze::Edge;
use crate::decoder::Decoder;
use crate::disasm::{
    addr_text, dec_text, disasm_text, fmt_decoded, hex_fixed, hex_text, put, put_addr, put_dec,
    put_hex, put_hex_fixed, put_usize,
};
use crate::isa::tc16::{tc16_decode, Tc16Decoder};
use crate::model::{image_u32, read_u32, read_u8, Image, Segment};
use crate::report::{byte_or_zero, nav_result, parse_nav};
use crate::text::{chars_of, digit_of, number_value, parse_hex, radix_in, radix_value, trim, trim_range};

verus! {

/// The pane the viewer shows.
#[derive(Debug, Clone, Copy, PartialEq, Eq, Structural)]
pub enum Tab {
    Code,
    Disasm,
    Graph,
    Hex,
}

/// The colour scheme picked in the settings.
#[derive(Debug, Clone, Copy, PartialEq, Eq, Structural)]
pub enum ThemeChoice {
    Dark,
    Light,
}

/// The colour of instruction text picked in the settings; `Default` leaves
/// the theme's colour.
#[derive(Debug, Clone, Copy, PartialEq, Eq, Structural)]
pub enum ColorChoice {
    Default,
    White,
    Yellow,
    Cyan,
    Green,
}

impl ThemeChoice {
    /// The name shown in the settings.
    pub fn name(&self) -> (r: &'static str)
        ensures
            r@ == (match self {
                ThemeChoice::Dark => "Dark"@,
                ThemeChoice::Light => "Light"@,
            }),
    {
        match self {
            ThemeChoice::Dark => "Dark",
            ThemeChoice::Light => "Light",
        }
    }
}

impl ColorChoice {
    /// The name shown in the settings.
    pub fn name(&self) -> (r: &'static str)
        ensures
            r@ == (match self {
                ColorChoice::Default => "Default"@,
                ColorChoice::White => "White"@,
                ColorChoice::Yellow => "Yellow"@,
                ColorChoice::Cyan => "Cyan"@,
                ColorChoice::Green => "Green"@,
            }),
    {
        match self {
            ColorChoice::Default => "Default",
            ColorChoice::White => "White",
            ColorChoice::Yellow => "Yellow",
            ColorChoice::Cyan => "Cyan",
            ColorChoice::Green => "Green",
        }
    }
}

/// A segment as plain values.
pub struct SegmentView {
    pub name: Seq<char>,
    pub base: u32,
    pub bytes: Seq<u8>,
    pub perms: Seq<char>,
    pub kind: Seq<char>,
}

pub open spec fn segment_view(s: Segment) -> SegmentView {
    SegmentView { name: s.name@, base: s.base, bytes: s.bytes@, perms: s.perms@, kind: s.kind@ }
}

/// An image as plain values: its segments in order.
pub open spec fn image_view(img: Image) -> Seq<SegmentView> {
    img.segments@.map_values(|s: Segment| segment_view(s))
}

/// Everything the viewer displays and remembers between messages.
#[derive(Debug, Clone)]
pub struct AppState {
    pub path: String,
    pub base: String,
    pub skip: String,
    pub status: String,
    pub show_bytes: bool,
    pub image: Option<Image>,
    pub visited: Vec<u32>,
    pub tab: Tab,
    pub selection: Option<u32>,
    pub selected_addr: Option<u32>,
    pub label_edit: String,
    pub labels: HashMap<u32, String>,
    pub search: String,
    pub logs: Vec<String>,
    /// Per address, the hex digits typed so far into the hex pane.
    pub hex_edits: HashMap<u32, String>,
    pub show_settings: bool,
    pub theme: ThemeChoice,
    pub font_size: u16,
    pub code_color: ColorChoice,
    pub edges: Vec<Edge>,
    pub show_ft: bool,
    pub show_br: bool,
    pub show_cbr: bool,
    pub show_call: bool,
    pub labels_path: String,
}

/// The state as plain values.
pub struct AppView {
    pub path: Seq<char>,
    pub base: Seq<char>,
    pub skip: Seq<char>,
    pub status: Seq<char>,
    pub show_bytes: bool,
    pub image: Option<Seq<SegmentView>>,
    pub visited: Seq<u32>,
    pub tab: Tab,
    pub selection: Option<u32>,
    pub selected_addr: Option<u32>,
    pub label_edit: Seq<char>,
    pub labels: Map<u32, Seq<char>>,
    pub search: Seq<char>,
    pub logs: Seq<Seq<char>>,
    pub hex_edits: Map<u32, Seq<char>>,
    pub show_settings: bool,
    pub theme: ThemeChoice,
    pub font_size: u16,
    pub code_color: ColorChoice,
    pub edges: Seq<Edge>,
    pub show_ft: bool,
    pub show_br: bool,
    pub show_cbr: bool,
    pub show_call: bool,
    pub labels_path: Seq<char>,
}

pub open spec fn text_map(m: Map<u32, String>) -> Map<u32, Seq<char>> {
    m.map_values(|t: String| t@)
}

pub open spec fn text_seq(v: Seq<String>) -> Seq<Seq<char>> {
    v.map_values(|t: String| t@)
}

impl View for AppState {
    type V = AppView;

    open spec fn view(&self) -> AppView {
        AppView {
            path: self.path@,
            base: self.base@,
            skip: self.skip@,
            status: self.status@,
            show_bytes: self.show_bytes,
            image: match self.image {
                Some(img) => Some(image_view(img)),
                None => None,
            },
            visited: self.visited@,
            tab: self.tab,
            selection: self.selection,
            selected_addr: self.selected_addr,
            label_edit: self.label_edit@,
            labels: text_map(self.labels@),
            search: self.search@,
            logs: text_seq(self.logs@),
            hex_edits: text_map(self.hex_edits@),
            show_settings: self.show_settings,
            theme: self.theme,
            font_size: self.font_size,
            code_color: self.code_color,
            edges: self.edges@,
            show_ft: self.show_ft,
            show_br: self.show_br,
            show_cbr: self.show_cbr,
            show_call: self.show_call,
            labels_path: self.labels_path@,
        }
    }
}

/// What reaches the viewer: a user action, or the outcome of a job.
#[derive(Debug)]
pub enum Msg {
    PathChanged(String),
    BaseChanged(String),
    SkipChanged(String),
    ToggleBytes(bool),
    SwitchTab(Tab),
    SearchChanged(String),
    SelectPc(u32),
    LabelEditChanged(String),
    SaveLabel,
    /// Open the bundled example; `exists` tells whether its file is there.
    OpenExample { exists: bool },
    /// Open the file named in the path box; `exists` tells whether it is there.
    Load { exists: bool },
    LoadedOk(Image),
    LoadedErr(String),
    Analyze,
    /// The analysis finished: the addresses it reached, its edges, and how
    /// long it took, as text, when that was measured.
    AnalyzedOk(Vec<u32>, Vec<Edge>, Option<String>),
    AnalyzedErr(String),
    ToggleSettings,
    ThemePicked(ThemeChoice),
    FontSizePicked(u16),
    CodeColorPicked(ColorChoice),
    SearchGo,
    ToggleEdgeFt(bool),
    ToggleEdgeBr(bool),
    ToggleEdgeCbr(bool),
    ToggleEdgeCall(bool),
    SaveLabels,
    LabelsSaved(Result<(), String>),
    LoadLabels,
    LabelsLoaded(Result<HashMap<u32, String>, String>),
    SelectAddr(u32),
    HexEditChanged(u32, String),
    HexEditCommit(u32),
    CopySelection,
    PasteToSearch,
    SaveDisasm,
    DisasmSaved(Result<(), String>),
    SaveImageBin,
    ImageSaved(Result<(), String>),
}

/// The job the front end is to start after a message; its outcome comes
/// back as a message.
#[derive(Debug)]
pub enum Effect {
    Nothing,
    /// Load `path` as a raw image at `base`, leaving out its first `skip` bytes.
    LoadFile { path: String, base: u32, skip: usize },
    /// Analyse the image the state now holds from these entry points.
    Analyze { seeds: Vec<u32> },
    /// Write these labels to `path`.
    SaveLabels { path: String, labels: HashMap<u32, String> },
    /// Read labels from `path`.
    LoadLabels { path: String },
    /// Write this disassembly listing.
    WriteDisasm { text: String },
    /// Write these image bytes.
    WriteImage { bytes: Vec<u8> },
}

/// An effect as plain values.
pub enum EffectView {
    Nothing,
    LoadFile(Seq<char>, u32, usize),
    Analyze(Seq<u32>),
    SaveLabels(Seq<char>, Map<u32, Seq<char>>),
    LoadLabels(Seq<char>),
    WriteDisasm(Seq<char>),
    WriteImage(Seq<u8>),
}

impl View for Effect {
    type V = EffectView;

    open spec fn view(&self) -> EffectView {
        match self {
            Effect::Nothing => EffectView::Nothing,
            Effect::LoadFile { path, base, skip } => EffectView::LoadFile(path@, *base, *skip),
            Effect::Analyze { seeds } => EffectView::Analyze(seeds@),
            Effect::SaveLabels { path, labels } => EffectView::SaveLabels(path@, text_map(labels@)),
            Effect::LoadLabels { path } => EffectView::LoadLabels(path@),
            Effect::WriteDisasm { text } => EffectView::WriteDisasm(text@),
            Effect::WriteImage { bytes } => EffectView::WriteImage(bytes@),
        }
    }
}

/// `{}` of a `bool`.
pub open spec fn bool_text(b: bool) -> Seq<char> {
    if b {
        "true"@
    } else {
        "false"@
    }
}

/// Decimal digits read onto `acc`, without a bound; `None` at the first
/// character that is no digit.
pub open spec fn dec_digits(ds: Seq<char>, acc: nat) -> Option<nat>
    decreases ds.len(),
{
    if ds.len() == 0 {
        Some(acc)
    } else {
        match digit_of(ds[0], false) {
            None => None,
            Some(d) => dec_digits(ds.drop_first(), acc * 10 + d as nat),
        }
    }
}

/// `str::parse::<usize>`: an optional `+`, then at least one decimal digit,
/// the value at most `usize::MAX`.
pub open spec fn usize_value(s: Seq<char>) -> Option<usize> {
    let ds = if s.len() > 0 && s[0] == '+' {
        s.drop_first()
    } else {
        s
    };
    if ds.len() == 0 {
        None
    } else {
        match dec_digits(ds, 0) {
            Some(v) => if v <= usize::MAX {
                Some(v as usize)
            } else {
                None
            },
            None => None,
        }
    }
}

/// The base typed into the base box: a number as `number_value` reads it, else 0.
pub open spec fn base_of(t: Seq<char>) -> u32 {
    match number_value(t) {
        Ok(v) => v,
        Err(_) => 0,
    }
}

/// The count typed into the skip box, surrounding whitespace ignored, else 0.
pub open spec fn skip_of(t: Seq<char>) -> usize {
    match usize_value(trim(t)) {
        Some(v) => v,
        None => 0,
    }
}

/// `u8::from_str_radix(t, 16)`.
pub open spec fn byte_value(t: Seq<char>) -> Option<u8> {
    match radix_value(t, true) {
        Ok(v) => if v <= 255 {
            Some(v as u8)
        } else {
            None
        },
        Err(_) => None,
    }
}

/// The hex digits of `t`, in order.
pub open spec fn hex_chars(t: Seq<char>) -> Seq<char>
    decreases t.len(),
{
    if t.len() == 0 {
        Seq::empty()
    } else if digit_of(t.last(), true) is Some {
        hex_chars(t.drop_last()).push(t.last())
    } else {
        hex_chars(t.drop_last())
    }
}

/// What a hex cell keeps of what was typed into it: its first two hex digits.
pub open spec fn hex_cell(t: Seq<char>) -> Seq<char> {
    let h = hex_chars(t);
    if h.len() <= 2 {
        h
    } else {
        h.take(2)
    }
}

/// The path of the bundled example image.
pub open spec fn example_path() -> Seq<char> {
    "examples/out/00-basic.bin"@
}

/// The address the viewer analyses from: the first segment's base, or 0.
pub open spec fn first_base(segs: Seq<SegmentView>) -> u32 {
    if segs.len() > 0 {
        segs[0].base
    } else {
        0
    }
}

/// `{:?}` of the one-element seed list.
pub open spec fn seeds_text(seed: u32) -> Seq<char> {
    "["@ + dec_text(seed as nat) + "]"@
}

/// The status line while a file loads.
pub open spec fn loading_text(path: Seq<char>, base: u32, skip: usize) -> Seq<char> {
    "Loading "@ + path + " base="@ + hex_text(base) + " skip="@ + dec_text(skip as nat) + "…"@
}

/// The label text of `pc`, or nothing.
pub open spec fn label_or_empty(labels: Map<u32, Seq<char>>, pc: u32) -> Seq<char> {
    if labels.contains_key(pc) {
        labels[pc]
    } else {
        Seq::empty()
    }
}

/// A segment's length as the viewer adds it to the base: truncated to 32 bits.
pub open spec fn short_len(sv: SegmentView) -> int {
    (sv.bytes.len() % 0x1_0000_0000) as int
}

/// Whether the segment holds `addr` (its end computed without wrapping).
pub open spec fn holds_addr(sv: SegmentView, addr: u32) -> bool {
    sv.base <= addr && addr < sv.base + short_len(sv)
}

/// The first segment, from index `i` on, that holds `addr`.
pub open spec fn seg_holding(segs: Seq<SegmentView>, addr: u32, i: int) -> Option<int>
    decreases segs.len() - i,
{
    if i < 0 || i >= segs.len() {
        None
    } else if holds_addr(segs[i], addr) {
        Some(i)
    } else {
        seg_holding(segs, addr, i + 1)
    }
}

/// Whether every segment the search for `addr` passes, from `i` on, ends
/// within 32 bits, so that computing its end does not overflow.
pub open spec fn ends_fit(segs: Seq<SegmentView>, addr: u32, i: int) -> bool
    decreases segs.len() - i,
{
    if i < 0 || i >= segs.len() {
        true
    } else {
        segs[i].base + short_len(segs[i]) <= u32::MAX && (holds_addr(segs[i], addr) || ends_fit(
            segs,
            addr,
            i + 1,
        ))
    }
}

/// `v` after `byte` is written at `addr` of the image `segs`: into the first
/// segment holding `addr`, with a status line and a log line; unchanged when
/// no segment holds it or there is no byte.
pub open spec fn poked(v: AppView, segs: Seq<SegmentView>, addr: u32, byte: Option<u8>) -> AppView {
    match (seg_holding(segs, addr, 0), byte) {
        (Some(k), Some(b)) => {
            let sv = segs[k];
            let sv2 = SegmentView { bytes: sv.bytes.update(addr - sv.base, b), ..sv };
            let st = "Wrote 0x"@ + hex_fixed(b as nat, 2) + " @ "@ + addr_text(addr);
            AppView { image: Some(segs.update(k, sv2)), status: st, logs: logged(v.logs, st), ..v }
        },
        _ => v,
    }
}

/// After a hex edit was written: the edit buffer of `addr` is dropped and,
/// with an image loaded, the analysis starts again.
pub open spec fn after_poke(v: AppView, addr: u32) -> (AppView, EffectView) {
    let v1 = AppView { hex_edits: v.hex_edits.remove(addr), ..v };
    match v1.image {
        Some(segs) => {
            let st = "Analyzing after hex edit…"@;
            (
                AppView { status: st, logs: logged(v1.logs, st), ..v1 },
                EffectView::Analyze(seq![first_base(segs)]),
            )
        },
        None => (v1, EffectView::Nothing),
    }
}

/// The line for an instruction address: `0xADDR: text`, or only the address
/// when no instruction decodes there.
pub open spec fn insn_or_addr(img: Image, pc: u32) -> Seq<char> {
    match image_u32(img, pc) {
        Some(raw) => match tc16_decode(raw) {
            Some(d) => addr_text(pc) + ": "@ + disasm_text(d),
            None => addr_text(pc),
        },
        None => addr_text(pc),
    }
}

/// What "copy" takes from the current pane: on the code pane the selected
/// instruction, elsewhere the selected byte; nothing without a selection or image.
pub open spec fn copied_text(s: AppState) -> Seq<char> {
    match s.tab {
        Tab::Code => match (s.image, s.selection) {
            (Some(img), Some(pc)) => insn_or_addr(img, pc),
            _ => Seq::empty(),
        },
        _ => match (s.selected_addr, s.image) {
            (Some(a), Some(img)) => addr_text(a) + ": 0x"@ + hex_fixed(byte_or_zero(img, a) as nat, 2),
            _ => Seq::empty(),
        },
    }
}

/// The index of the first `": "` in `t`, from `i` on.
pub open spec fn colon_space(t: Seq<char>, i: int) -> Option<int>
    decreases t.len() - i,
{
    if i < 0 || i + 1 >= t.len() {
        None
    } else if t[i] == ':' && t[i + 1] == ' ' {
        Some(i)
    } else {
        colon_space(t, i + 1)
    }
}

/// The listing lines of the instructions at `pcs`, in order; addresses
/// where no instruction decodes are left out.
pub open spec fn dump_lines(img: Image, pcs: Seq<u32>) -> Seq<Seq<char>>
    decreases pcs.len(),
{
    if pcs.len() == 0 {
        Seq::empty()
    } else {
        let prev = dump_lines(img, pcs.drop_last());
        let pc = pcs.last();
        match image_u32(img, pc) {
            Some(raw) => match tc16_decode(raw) {
                Some(d) => prev.push(addr_text(pc) + ": "@ + disasm_text(d)),
                None => prev,
            },
            None => prev,
        }
    }
}

/// Lines joined with newlines between them.
pub open spec fn join_lines(ls: Seq<Seq<char>>) -> Seq<char>
    decreases ls.len(),
{
    if ls.len() == 0 {
        Seq::empty()
    } else if ls.len() == 1 {
        ls[0]
    } else {
        join_lines(ls.drop_last()) + "\n"@ + ls.last()
    }
}

/// The order the visited addresses are shown in.
pub open spec fn ascending() -> spec_fn(u32, u32) -> bool {
    |a: u32, b: u32| a <= b
}

/// `v` with a new status line, which is also logged.
pub open spec fn with_status(v: AppView, st: Seq<char>) -> AppView {
    AppView { status: st, logs: logged(v.logs, st), ..v }
}

/// `v` with a line logged.
pub open spec fn with_log(v: AppView, line: Seq<char>) -> AppView {
    AppView { logs: logged(v.logs, line), ..v }
}

/// What a message does: the next state and the job to start. `found` is
/// what the search box resolved to (see `nav_result`); only "go" reads it.
pub open spec fn next(s: AppState, m: Msg, found: Option<u32>) -> (AppView, EffectView) {
    let v = s@;
    match m {
        Msg::PathChanged(p) => (with_log(AppView { path: p@, ..v }, "PathChanged: "@ + p@), EffectView::Nothing),
        Msg::BaseChanged(p) => (with_log(AppView { base: p@, ..v }, "BaseChanged: "@ + p@), EffectView::Nothing),
        Msg::SkipChanged(p) => (with_log(AppView { skip: p@, ..v }, "SkipChanged: "@ + p@), EffectView::Nothing),
        Msg::ToggleBytes(b) => (
            with_log(AppView { show_bytes: b, ..v }, "ToggleBytes: "@ + bool_text(b)),
            EffectView::Nothing,
        ),
        Msg::SwitchTab(t) => (AppView { tab: t, ..v }, EffectView::Nothing),
        Msg::SearchChanged(q) => (with_log(AppView { search: q@, ..v }, "Search: "@ + q@), EffectView::Nothing),
        Msg::SelectPc(pc) => (
            with_log(
                AppView { selection: Some(pc), label_edit: label_or_empty(v.labels, pc), ..v },
                "SelectPc: "@ + addr_text(pc),
            ),
            EffectView::Nothing,
        ),
        Msg::LabelEditChanged(q) => (
            with_log(AppView { label_edit: q@, ..v }, "LabelEdit: "@ + q@),
            EffectView::Nothing,
        ),
        Msg::SaveLabel => match v.selection {
            Some(pc) => {
                let name = trim(v.label_edit);
                if name.len() > 0 {
                    (
                        with_log(
                            AppView { labels: v.labels.insert(pc, name), ..v },
                            "Saved label '"@ + name + "' @ "@ + addr_text(pc),
                        ),
                        EffectView::Nothing,
                    )
                } else {
                    (v, EffectView::Nothing)
                }
            },
            None => (v, EffectView::Nothing),
        },
        Msg::Load { exists } => {
            let base = base_of(v.base);
            let skip = skip_of(v.skip);
            if trim(v.path).len() == 0 {
                (
                    with_status(v, "Please enter a file path (e.g., examples/out/00-basic.bin)"@),
                    EffectView::Nothing,
                )
            } else if !exists {
                (with_status(v, "File not found: "@ + v.path), EffectView::Nothing)
            } else {
                (
                    with_status(v, loading_text(v.path, base, skip)),
                    EffectView::LoadFile(v.path, base, skip),
                )
            }
        },
        Msg::OpenExample { exists } => {
            let v1 = AppView { path: example_path(), ..v };
            let base = base_of(v.base);
            let skip = skip_of(v.skip);
            if !exists {
                (
                    with_status(
                        v1,
                        "examples/out/00-basic.bin not found; run scripts/run_examples.sh first"@,
                    ),
                    EffectView::Nothing,
                )
            } else {
                (
                    with_status(v1, loading_text(example_path(), base, skip)),
                    EffectView::LoadFile(example_path(), base, skip),
                )
            }
        },
        Msg::LoadedOk(img) => {
            let segs = image_view(img);
            (
                with_status(
                    AppView { image: Some(segs), ..v },
                    "Loaded. Analyzing… seeds="@ + seeds_text(first_base(segs)),
                ),
                EffectView::Analyze(seq![first_base(segs)]),
            )
        },
        Msg::LoadedErr(e) => (
            with_status(AppView { image: None, visited: Seq::empty(), ..v }, "Load error: "@ + e@),
            EffectView::Nothing,
        ),
        Msg::Analyze => match v.image {
            Some(segs) => (
                with_status(v, "Analyzing… seeds="@ + seeds_text(first_base(segs))),
                EffectView::Analyze(seq![first_base(segs)]),
            ),
            None => (v, EffectView::Nothing),
        },
        Msg::AnalyzedOk(pcs, edges, took) => {
            let dt = match took {
                Some(t) => " in "@ + t@,
                None => Seq::empty(),
            };
            (
                with_status(
                    AppView { visited: pcs@.sort_by(ascending()), edges: edges@, ..v },
                    "Analysis done"@ + dt + " (visited="@ + dec_text(pcs@.len()) + ", edges="@
                        + dec_text(edges@.len()) + ")"@,
                ),
                EffectView::Nothing,
            )
        },
        Msg::AnalyzedErr(e) => (
            with_status(AppView { visited: Seq::empty(), ..v }, "Analyze error: "@ + e@),
            EffectView::Nothing,
        ),
        Msg::ToggleSettings => (AppView { show_settings: !v.show_settings, ..v }, EffectView::Nothing),
        Msg::ThemePicked(t) => (AppView { theme: t, ..v }, EffectView::Nothing),
        Msg::FontSizePicked(z) => (AppView { font_size: z, ..v }, EffectView::Nothing),
        Msg::CodeColorPicked(c) => (AppView { code_color: c, ..v }, EffectView::Nothing),
        Msg::SearchGo => match found {
            Some(pc) => (
                with_log(AppView { selection: Some(pc), ..v }, "Navigate to "@ + addr_text(pc)),
                EffectView::Nothing,
            ),
            None => (AppView { status: "No match for '"@ + v.search + "'"@, ..v }, EffectView::Nothing),
        },
        Msg::ToggleEdgeFt(b) => (AppView { show_ft: b, ..v }, EffectView::Nothing),
        Msg::ToggleEdgeBr(b) => (AppView { show_br: b, ..v }, EffectView::Nothing),
        Msg::ToggleEdgeCbr(b) => (AppView { show_cbr: b, ..v }, EffectView::Nothing),
        Msg::ToggleEdgeCall(b) => (AppView { show_call: b, ..v }, EffectView::Nothing),
        Msg::SaveLabels => (v, EffectView::SaveLabels(v.labels_path, v.labels)),
        Msg::LabelsSaved(r) => (
            with_status(
                v,
                match r {
                    Ok(_) => "Labels saved to "@ + v.labels_path,
                    Err(e) => "Save error: "@ + e@,
                },
            ),
            EffectView::Nothing,
        ),
        Msg::LoadLabels => (v, EffectView::LoadLabels(v.labels_path)),
        Msg::LabelsLoaded(r) => (
            match r {
                Ok(m) => with_status(
                    AppView { labels: text_map(m@), ..v },
                    "Labels loaded from "@ + v.labels_path,
                ),
                Err(e) => with_status(v, "Load error: "@ + e@),
            },
            EffectView::Nothing,
        ),
        Msg::SelectAddr(a) => (AppView { selected_addr: Some(a), ..v }, EffectView::Nothing),
        Msg::HexEditChanged(addr, t) => {
            let f = hex_cell(t@);
            let v1 = AppView {
                hex_edits: if f.len() == 0 {
                    v.hex_edits.remove(addr)
                } else {
                    v.hex_edits.insert(addr, f)
                },
                selected_addr: Some(addr),
                ..v
            };
            if f.len() == 2 {
                let v2 = match v1.image {
                    Some(segs) => poked(v1, segs, addr, byte_value(f)),
                    None => v1,
                };
                after_poke(v2, addr)
            } else {
                (v1, EffectView::Nothing)
            }
        },
        Msg::HexEditCommit(addr) => {
            let byte = if v.hex_edits.contains_key(addr) {
                byte_value(v.hex_edits[addr])
            } else {
                None
            };
            let v1 = match v.image {
                Some(segs) => poked(v, segs, addr, byte),
                None => v,
            };
            after_poke(v1, addr)
        },
        Msg::CopySelection => {
            let t = copied_text(s);
            let st = if t.len() > 0 {
                "Copied: "@ + t
            } else {
                v.status
            };
            (with_status(v, st), EffectView::Nothing)
        },
        Msg::PasteToSearch => match colon_space(v.status, 0) {
            Some(i) => (
                AppView { search: v.status.subrange(i + 2, v.status.len() as int), ..v },
                EffectView::Nothing,
            ),
            None => (v, EffectView::Nothing),
        },
        Msg::SaveDisasm => match s.image {
            Some(img) => (v, EffectView::WriteDisasm(join_lines(dump_lines(img, v.visited)))),
            None => (v, EffectView::Nothing),
        },
        Msg::DisasmSaved(r) => (
            with_status(
                v,
                match r {
                    Ok(_) => "Saved disasm.txt"@,
                    Err(e) => "Save failed: "@ + e@,
                },
            ),
            EffectView::Nothing,
        ),
        Msg::SaveImageBin => match v.image {
            Some(segs) => (
                v,
                EffectView::WriteImage(
                    if segs.len() > 0 {
                        segs[0].bytes
                    } else {
                        Seq::empty()
                    },
                ),
            ),
            None => (v, EffectView::Nothing),
        },
        Msg::ImageSaved(r) => (
            with_status(
                v,
                match r {
                    Ok(_) => "Saved image.bin"@,
                    Err(e) => "Save failed: "@ + e@,
                },
            ),
            EffectView::Nothing,
        ),
    }
}

/// What a message asks of the state that the viewer would otherwise trip
/// over: a hex edit that writes searches the segments for the address, and
/// the end of each segment it passes must fit in 32 bits.
pub open spec fn fits_msg(s: AppState, m: &Msg) -> bool {
    match (m, s.image) {
        (Msg::HexEditChanged(addr, t), Some(img)) => hex_cell(t@).len() == 2 ==> ends_fit(
            image_view(img),
            *addr,
            0,
        ),
        (Msg::HexEditCommit(addr), Some(img)) => ends_fit(image_view(img), *addr, 0),
        _ => true,
    }
}

/// The log after `line` is appended: only its last thousand lines are kept.
pub open spec fn logged(logs: Seq<Seq<char>>, line: Seq<char>) -> Seq<Seq<char>> {
    let l = logs.push(line);
    if l.len() > 1000 {
        l.subrange(l.len() - 1000, l.len() as int)
    } else {
        l
    }
}

proof fn lemma_dec_digits_grows(ds: Seq<char>, acc: nat)
    ensures
        dec_digits(ds, acc) matches Some(v) ==> v >= acc,
    decreases ds.len(),
{
    if ds.len() > 0 {
        match digit_of(ds[0], false) {
            Some(d) => lemma_dec_digits_grows(ds.drop_first(), acc * 10 + d as nat),
            None => {},
        }
    }
}

/// `str::parse::<usize>` on `s[lo..hi]` (see `usize_value`).
fn usize_in(s: &[char], lo: usize, hi: usize) -> (r: Option<usize>)
    requires
        lo <= hi <= s@.len(),
    ensures
        r == usize_value(s@.subrange(lo as int, hi as int)),
{
    let ghost t = s@.subrange(lo as int, hi as int);
    let mut i = lo;
    if i < hi && s[i] == '+' {
        assert(t.drop_first() =~= s@.subrange(lo + 1, hi as int));
        i = i + 1;
    }
    let ghost start = i;
    assert(start == lo ==> !(t.len() > 0 && t[0] == '+'));
    assert(start == lo ==> t =~= s@.subrange(start as int, hi as int));
    if i == hi {
        return None;
    }
    let mut acc: usize = 0;
    assert(usize_value(t) == match dec_digits(s@.subrange(start as int, hi as int), 0) {
        Some(v) => if v <= usize::MAX {
            Some(v as usize)
        } else {
            None::<usize>
        },
        None => None,
    });
    while i < hi
        invariant
            lo <= start <= i <= hi <= s@.len(),
            start < hi,
            t == s@.subrange(lo as int, hi as int),
            usize_value(t) == match dec_digits(s@.subrange(start as int, hi as int), 0) {
                Some(v) => if v <= usize::MAX {
                    Some(v as usize)
                } else {
                    None::<usize>
                },
                None => None,
            },
            dec_digits(s@.subrange(start as int, hi as int), 0) == dec_digits(
                s@.subrange(i as int, hi as int),
                acc as nat,
            ),
        decreases hi - i,
    {
        let c = s[i];
        let n = c as u32;
        let ghost rest = s@.subrange(i as int, hi as int);
        assert(rest[0] == c);
        assert(rest.drop_first() =~= s@.subrange(i + 1, hi as int));
        if !(0x30 <= n && n <= 0x39) {
            assert(digit_of(c, false) is None);
            assert(dec_digits(rest, acc as nat) is None);
            return None;
        }
        let d = (n - 0x30) as usize;
        assert(digit_of(c, false) == Some(d as u32));
        assert(dec_digits(rest, acc as nat) == dec_digits(s@.subrange(i + 1, hi as int), acc as nat * 10 + d as nat));
        proof {
            lemma_dec_digits_grows(s@.subrange(i + 1, hi as int), acc as nat * 10 + d as nat);
        }
        match acc.checked_mul(10) {
            Some(a10) => match a10.checked_add(d) {
                Some(a) => {
                    acc = a;
                },
                None => {
                    return None;
                },
            },
            None => {
                return None;
            },
        }
        i = i + 1;
    }
    Some(acc)
}

/// The count in the skip box (see `skip_of`).
pub fn parse_count(s: &str) -> (r: Option<usize>)
    ensures
        r == usize_value(trim(s@)),
{
    let cs = chars_of(s);
    let v = cs.as_slice();
    assert(v@.subrange(0, v@.len() as int) =~= s@);
    let (a, b) = trim_range(v, 0, v.len());
    usize_in(v, a, b)
}

/// What a hex cell keeps of `t` (see `hex_cell`).
fn hex_cell_of(t: &str) -> (r: String)
    ensures
        r@ == hex_cell(t@),
{
    let n = t.unicode_len();
    let mut out = String::new();
    let mut i: usize = 0;
    assert(t@.subrange(0, 0) =~= Seq::<char>::empty());
    while i < n
        invariant
            n == t@.len(),
            i <= n,
            out@ == hex_cell(t@.subrange(0, i as int)),
            out@.len() <= 2,
            out@.len() < 2 ==> out@ == hex_chars(t@.subrange(0, i as int)),
            out@.len() == 2 ==> hex_chars(t@.subrange(0, i as int)).len() >= 2,
        decreases n - i,
    {
        let c = t.get_char(i);
        let ghost pre = t@.subrange(0, i as int);
        let ghost now = t@.subrange(0, i + 1);
        assert(now.drop_last() =~= pre);
        assert(now.last() == c);
        let k = c as u32;
        let hex = (0x30 <= k && k <= 0x39) || (0x61 <= k && k <= 0x66) || (0x41 <= k && k <= 0x46);
        assert(hex == digit_of(c, true) is Some);
        if hex && out.unicode_len() < 2 {
            let ghost o0 = out@;
            crate::disasm::put(&mut out, t.substring_char(i, i + 1));
            assert(t@.subrange(i as int, i + 1) =~= seq![c]);
            assert(out@ =~= o0.push(c));
        } else if hex {
            let ghost h = hex_chars(pre);
            assert(h.push(c).take(2) =~= h.take(2));
            assert(h.len() == 2 ==> h.take(2) =~= h);
        }
        i = i + 1;
    }
    assert(t@.subrange(0, n as int) =~= t@);
    out
}

/// `u8::from_str_radix(t, 16)`.
fn byte_of(t: &str) -> (r: Option<u8>)
    ensures
        r == byte_value(t@),
{
    let cs = chars_of(t);
    let v = cs.as_slice();
    assert(v@.subrange(0, v@.len() as int) =~= t@);
    match radix_in(v, 0, v.len(), true) {
        Ok(x) => if x <= 255 {
            Some(x as u8)
        } else {
            None
        },
        Err(_) => None,
    }
}

/// The addresses in ascending order, duplicates kept.
pub(crate) fn sort_ascending(v: Vec<u32>) -> (r: Vec<u32>)
    ensures
        r@ == v@.sort_by(ascending()),
{
    broadcast use vstd::seq_lib::group_to_multiset_ensures;
    broadcast use vstd::multiset::group_multiset_axioms;

    let mut out: Vec<u32> = Vec::new();
    let mut i: usize = 0;
    while i < v.len()
        invariant
            i <= v@.len(),
            vstd::relations::sorted_by(out@, ascending()),
            out@.to_multiset() == v@.subrange(0, i as int).to_multiset(),
        decreases v@.len() - i,
    {
        let x = v[i];
        let mut j: usize = out.len();
        while j > 0 && out[j - 1] > x
            invariant
                j <= out@.len(),
                forall|q: int| j <= q < out@.len() ==> out@[q] > x,
            decreases j,
        {
            j = j - 1;
        }
        let ghost o0 = out@;
        out.insert(j, x);
        proof {
            let a = o0.subrange(0, j as int);
            let b = o0.subrange(j as int, o0.len() as int);
            assert(out@ =~= a.push(x) + b);
            assert(o0 =~= a + b);
            vstd::seq_lib::lemma_multiset_commutative(a, b);
            vstd::seq_lib::lemma_multiset_commutative(a.push(x), b);
            a.to_multiset_ensures();
            v@.subrange(0, i as int).to_multiset_ensures();
            assert(a.push(x).to_multiset() =~= a.to_multiset().insert(x));
            assert(out@.to_multiset() =~= o0.to_multiset().insert(x));
            assert(v@.subrange(0, i + 1) =~= v@.subrange(0, i as int).push(x));
            assert(v@.subrange(0, i + 1).to_multiset() =~= v@.subrange(0, i as int).to_multiset().insert(x));
            assert forall|a: int, b: int| 0 <= a < b < out@.len() implies #[trigger] (ascending())(out@[a], out@[b]) by {
                assert((ascending())(o0[0], o0[0]) || true);
                if b < j {
                    assert((ascending())(o0[a], o0[b]));
                } else if b == j {
                    if a < j && j > 0 {
                        assert((ascending())(o0[a], o0[j - 1]) || a == j - 1);
                    }
                } else if a < j {
                    assert((ascending())(o0[a], o0[b - 1]));
                } else if a == j {
                } else {
                    assert((ascending())(o0[a - 1], o0[b - 1]));
                }
            }
        }
        i = i + 1;
    }
    proof {
        assert(v@.subrange(0, v@.len() as int) =~= v@);
        let leq = ascending();
        v@.lemma_sort_by_ensures(leq);
        vstd::seq_lib::lemma_sorted_unique(out@, v@.sort_by(leq), leq);
    }
    out
}

/// `a` followed by `b`.
fn joined(a: &str, b: &str) -> (r: String)
    ensures
        r@ == a@ + b@,
{
    let mut r = String::new();
    put(&mut r, a);
    put(&mut r, b);
    assert(r@ =~= a@ + b@);
    r
}

/// `s` without its surrounding whitespace.
fn trimmed(s: &str) -> (r: &str)
    ensures
        r@ == trim(s@),
{
    let cs = chars_of(s);
    let v = cs.as_slice();
    assert(v@.subrange(0, v@.len() as int) =~= s@);
    let (a, b) = trim_range(v, 0, v.len());
    assert(v@.subrange(a as int, b as int) =~= s@.subrange(a as int, b as int));
    s.substring_char(a, b)
}

/// `{:?}` of the one-element seed list.
fn seeds_line(prefix: &str, seed: u32) -> (r: String)
    ensures
        r@ == prefix@ + seeds_text(seed),
{
    let mut r = String::new();
    put(&mut r, prefix);
    put(&mut r, "[");
    put_dec(&mut r, seed);
    put(&mut r, "]");
    assert(r@ =~= prefix@ + seeds_text(seed));
    r
}

/// The first segment's base, or 0.
fn first_base_of(img: &Image) -> (r: u32)
    ensures
        r == first_base(image_view(*img)),
{
    if img.segments.len() > 0 {
        img.segments[0].base
    } else {
        0
    }
}

/// `0xADDR: text` for the instruction at `pc`, or only the address.
fn insn_or_addr_line(img: &Image, pc: u32) -> (r: String)
    ensures
        r@ == insn_or_addr(*img, pc),
{
    let mut r = String::new();
    put_addr(&mut r, pc);
    match read_u32(img, pc) {
        Some(raw) => match Tc16Decoder::new().decode(raw) {
            Some(d) => {
                let ghost r0 = r@;
                put(&mut r, ": ");
                let t = fmt_decoded(&d);
                put(&mut r, t.as_str());
                assert(r@ =~= r0 + ": "@ + disasm_text(d));
            },
            None => {},
        },
        None => {},
    }
    r
}

impl AppState {
    /// The viewer as it starts: base `0x0`, the code pane, dark theme, font
    /// size 16, every edge kind shown, labels kept in `labels.json`.
    pub fn new() -> (r: AppState)
        ensures
            r@.path == Seq::<char>::empty(),
            r@.base == "0x0"@,
            r@.skip == Seq::<char>::empty(),
            r@.status == Seq::<char>::empty(),
            !r@.show_bytes,
            r@.image is None,
            r@.visited == Seq::<u32>::empty(),
            r@.tab == Tab::Code,
            r@.selection is None,
            r@.selected_addr is None,
            r@.label_edit == Seq::<char>::empty(),
            r@.labels == Map::<u32, Seq<char>>::empty(),
            r@.search == Seq::<char>::empty(),
            r@.logs == Seq::<Seq<char>>::empty(),
            r@.hex_edits == Map::<u32, Seq<char>>::empty(),
            !r@.show_settings,
            r@.theme == ThemeChoice::Dark,
            r@.font_size == 16,
            r@.code_color == ColorChoice::Default,
            r@.edges == Seq::<Edge>::empty(),
            r@.show_ft && r@.show_br && r@.show_cbr && r@.show_call,
            r@.labels_path == "labels.json"@,
    {
        let r = AppState {
            path: String::new(),
            base: String::from_str("0x0"),
            skip: String::new(),
            status: String::new(),
            show_bytes: false,
            image: None,
            visited: Vec::new(),
            tab: Tab::Code,
            selection: None,
            selected_addr: None,
            label_edit: String::new(),
            labels: HashMap::new(),
            search: String::new(),
            logs: Vec::new(),
            hex_edits: HashMap::new(),
            show_settings: false,
            theme: ThemeChoice::Dark,
            font_size: 16,
            code_color: ColorChoice::Default,
            edges: Vec::new(),
            show_ft: true,
            show_br: true,
            show_cbr: true,
            show_call: true,
            labels_path: String::from_str("labels.json"),
        };
        assert(r@.labels =~= Map::<u32, Seq<char>>::empty());
        assert(r@.hex_edits =~= Map::<u32, Seq<char>>::empty());
        assert(r@.logs =~= Seq::<Seq<char>>::empty());
        r
    }

    /// Appends a line to the log, dropping the oldest beyond a thousand.
    pub fn push_log(&mut self, line: String)
        ensures
            final(self)@ == with_log(old(self)@, line@),
    {
        let ghost v0 = self@;
        self.logs.push(line);
        assert(text_seq(self.logs@) =~= v0.logs.push(line@));
        let n = self.logs.len();
        if n > 1000 {
            let tail = self.logs.split_off(n - 1000);
            self.logs = tail;
            assert(text_seq(self.logs@) =~= v0.logs.push(line@).subrange(n - 1000, n as int));
        }
        assert(self@.labels =~= v0.labels);
        assert(self@.hex_edits =~= v0.hex_edits);
    }

    /// Shows a status line and logs it.
    fn set_status(&mut self, st: String)
        ensures
            final(self)@ == with_status(old(self)@, st@),
    {
        self.status = st.clone();
        self.push_log(st);
    }

    fn on_select_pc(&mut self, pc: u32)
        ensures
            final(self)@ == next(*old(self), Msg::SelectPc(pc), None).0,
    {
        broadcast use vstd::std_specs::hash::group_hash_axioms;

        self.selection = Some(pc);
        self.label_edit = match self.labels.get(&pc) {
            Some(l) => l.clone(),
            None => String::new(),
        };
        let mut line = String::from_str("SelectPc: ");
        put_addr(&mut line, pc);
        self.push_log(line);
    }

    fn on_save_label(&mut self)
        ensures
            final(self)@ == next(*old(self), Msg::SaveLabel, None).0,
    {
        broadcast use vstd::std_specs::hash::group_hash_axioms;

        match self.selection {
            Some(pc) => {
                let name = String::from_str(trimmed(self.label_edit.as_str()));
                if name.unicode_len() > 0 {
                    let ghost v0 = self@;
                    let mut line = String::from_str("Saved label '");
                    put(&mut line, name.as_str());
                    put(&mut line, "' @ ");
                    put_addr(&mut line, pc);
                    self.labels.insert(pc, name);
                    assert(text_map(self.labels@) =~= v0.labels.insert(pc, trim(v0.label_edit)));
                    self.push_log(line);
                }
            },
            None => {},
        }
    }

    fn on_load(&mut self, exists: bool) -> (e: Effect)
        ensures
            (final(self)@, e@) == next(*old(self), Msg::Load { exists }, None),
    {
        let base = match parse_hex(self.base.as_str()) {
            Some(b) => b,
            None => 0,
        };
        let skip = match parse_count(self.skip.as_str()) {
            Some(k) => k,
            None => 0,
        };
        if trimmed(self.path.as_str()).unicode_len() == 0 {
            self.set_status(String::from_str("Please enter a file path (e.g., examples/out/00-basic.bin)"));
            return Effect::Nothing;
        }
        if !exists {
            let st = joined("File not found: ", self.path.as_str());
            self.set_status(st);
            return Effect::Nothing;
        }
        let st = loading_line(self.path.as_str(), base, skip);
        let path = self.path.clone();
        self.set_status(st);
        Effect::LoadFile { path, base, skip }
    }

    fn on_open_example(&mut self, exists: bool) -> (e: Effect)
        ensures
            (final(self)@, e@) == next(*old(self), Msg::OpenExample { exists }, None),
    {
        let base = match parse_hex(self.base.as_str()) {
            Some(b) => b,
            None => 0,
        };
        let skip = match parse_count(self.skip.as_str()) {
            Some(k) => k,
            None => 0,
        };
        self.path = String::from_str("examples/out/00-basic.bin");
        if !exists {
            self.set_status(
                String::from_str("examples/out/00-basic.bin not found; run scripts/run_examples.sh first"),
            );
            return Effect::Nothing;
        }
        let st = loading_line("examples/out/00-basic.bin", base, skip);
        self.set_status(st);
        Effect::LoadFile { path: String::from_str("examples/out/00-basic.bin"), base, skip }
    }

    fn on_loaded(&mut self, img: Image) -> (e: Effect)
        ensures
            (final(self)@, e@) == next(*old(self), Msg::LoadedOk(img), None),
    {
        let fb = first_base_of(&img);
        let st = seeds_line("Loaded. Analyzing… seeds=", fb);
        self.image = Some(img);
        self.set_status(st);
        let seeds = vec![fb];
        assert(seeds@ =~= seq![fb]);
        Effect::Analyze { seeds }
    }

    fn on_analyze(&mut self) -> (e: Effect)
        ensures
            (final(self)@, e@) == next(*old(self), Msg::Analyze, None),
    {
        match &self.image {
            Some(img) => {
                let fb = first_base_of(img);
                let st = seeds_line("Analyzing… seeds=", fb);
                self.set_status(st);
                let seeds = vec![fb];
                assert(seeds@ =~= seq![fb]);
                Effect::Analyze { seeds }
            },
            None => Effect::Nothing,
        }
    }

    fn on_analyzed(&mut self, pcs: Vec<u32>, edges: Vec<Edge>, took: Option<String>)
        ensures
            final(self)@ == next(*old(self), Msg::AnalyzedOk(pcs, edges, took), None).0,
    {
        let n = pcs.len();
        let m = edges.len();
        let mut st = String::from_str("Analysis done");
        match &took {
            Some(t) => {
                put(&mut st, " in ");
                put(&mut st, t.as_str());
            },
            None => {},
        }
        put(&mut st, " (visited=");
        put_usize(&mut st, n);
        put(&mut st, ", edges=");
        put_usize(&mut st, m);
        put(&mut st, ")");
        let ghost dt = match took {
            Some(t) => " in "@ + t@,
            None => Seq::<char>::empty(),
        };
        assert(st@ =~= "Analysis done"@ + dt + " (visited="@ + dec_text(n as nat) + ", edges="@
            + dec_text(m as nat) + ")"@);
        self.visited = sort_ascending(pcs);
        self.edges = edges;
        self.set_status(st);
    }

    fn on_search_go(&mut self) -> (found: Option<u32>)
        ensures
            nav_result(old(self).search@, old(self).labels@, found),
            final(self)@ == next(*old(self), Msg::SearchGo, found).0,
    {
        let found = parse_nav(self.search.as_str(), &self.labels);
        match found {
            Some(pc) => {
                self.selection = Some(pc);
                let mut line = String::from_str("Navigate to ");
                put_addr(&mut line, pc);
                self.push_log(line);
            },
            None => {
                let mut st = String::from_str("No match for '");
                put(&mut st, self.search.as_str());
                put(&mut st, "'");
                self.status = st;
            },
        }
        found
    }

    /// Writes `byte` at `addr` into the first segment holding it (see `poked`).
    fn poke(&mut self, addr: u32, byte: Option<u8>)
        requires
            old(self).image matches Some(img) ==> ends_fit(image_view(img), addr, 0),
        ensures
            final(self)@ == match old(self)@.image {
                Some(segs) => poked(old(self)@, segs, addr, byte),
                None => old(self)@,
            },
    {
        let b = match byte {
            Some(b) => b,
            None => {
                return;
            },
        };
        let mut img = match self.image.take() {
            Some(img) => img,
            None => {
                return;
            },
        };
        let ghost v0 = self@;
        let ghost segs = image_view(img);
        let n = img.segments.len();
        let mut k: usize = 0;
        let mut hit = false;
        while k < n
            invariant_except_break
                !hit,
                seg_holding(segs, addr, 0) == seg_holding(segs, addr, k as int),
                ends_fit(segs, addr, k as int),
            invariant
                n == img.segments@.len(),
                segs == image_view(img),
                k <= n,
            ensures
                seg_holding(segs, addr, 0) == if hit {
                    Some(k as int)
                } else {
                    None
                },
                hit ==> k < n && holds_addr(segs[k as int], addr),
            decreases n - k,
        {
            let sg = &img.segments[k];
            assert(segs[k as int] == segment_view(*sg));
            let start = sg.base;
            let len32 = (sg.bytes.len() as u64 % 0x1_0000_0000) as u32;
            assert(len32 as int == short_len(segs[k as int]));
            assert(ends_fit(segs, addr, k as int));
            let end = start + len32;
            if addr >= start && addr < end {
                hit = true;
                break;
            }
            k = k + 1;
        }
        if hit {
            let mut sg = img.segments.remove(k);
            let off = (addr - sg.base) as usize;
            sg.bytes.set(off, b);
            img.segments.insert(k, sg);
            assert(image_view(img) =~= segs.update(
                k as int,
                SegmentView { bytes: segs[k as int].bytes.update(addr - segs[k as int].base, b), ..segs[k as int] },
            ));
            let mut st = String::from_str("Wrote 0x");
            put_hex_fixed(&mut st, b as u32, 2);
            put(&mut st, " @ ");
            put_addr(&mut st, addr);
            self.image = Some(img);
            self.set_status(st);
        } else {
            self.image = Some(img);
        }
    }

    /// Drops the edit buffer of `addr` and starts the analysis again (see `after_poke`).
    fn restart(&mut self, addr: u32) -> (e: Effect)
        ensures
            (final(self)@, e@) == after_poke(old(self)@, addr),
    {
        broadcast use vstd::std_specs::hash::group_hash_axioms;

        let ghost v0 = self@;
        self.hex_edits.remove(&addr);
        assert(text_map(self.hex_edits@) =~= v0.hex_edits.remove(addr));
        match &self.image {
            Some(img) => {
                let fb = first_base_of(img);
                self.set_status(String::from_str("Analyzing after hex edit…"));
                let seeds = vec![fb];
                assert(seeds@ =~= seq![fb]);
                Effect::Analyze { seeds }
            },
            None => Effect::Nothing,
        }
    }

    fn on_hex_changed(&mut self, addr: u32, t: String) -> (e: Effect)
        requires
            fits_msg(*old(self), &Msg::HexEditChanged(addr, t)),
        ensures
            (final(self)@, e@) == next(*old(self), Msg::HexEditChanged(addr, t), None),
    {
        broadcast use vstd::std_specs::hash::group_hash_axioms;

        let ghost v0 = self@;
        let f = hex_cell_of(t.as_str());
        let flen = f.unicode_len();
        if flen == 0 {
            self.hex_edits.remove(&addr);
            assert(text_map(self.hex_edits@) =~= v0.hex_edits.remove(addr));
        } else {
            self.hex_edits.insert(addr, f.clone());
            assert(text_map(self.hex_edits@) =~= v0.hex_edits.insert(addr, f@));
        }
        self.selected_addr = Some(addr);
        if flen == 2 {
            let b = byte_of(f.as_str());
            self.poke(addr, b);
            return self.restart(addr);
        }
        Effect::Nothing
    }

    fn on_hex_commit(&mut self, addr: u32) -> (e: Effect)
        requires
            fits_msg(*old(self), &Msg::HexEditCommit(addr)),
        ensures
            (final(self)@, e@) == next(*old(self), Msg::HexEditCommit(addr), None),
    {
        broadcast use vstd::std_specs::hash::group_hash_axioms;

        let b = match self.hex_edits.get(&addr) {
            Some(buf) => byte_of(buf.as_str()),
            None => None,
        };
        self.poke(addr, b);
        self.restart(addr)
    }

    fn on_copy(&mut self)
        ensures
            final(self)@ == next(*old(self), Msg::CopySelection, None).0,
    {
        let t = match self.tab {
            Tab::Code => match (&self.image, self.selection) {
                (Some(img), Some(pc)) => insn_or_addr_line(img, pc),
                _ => String::new(),
            },
            _ => match (self.selected_addr, &self.image) {
                (Some(a), Some(img)) => {
                    let b = match read_u8(img, a) {
                        Some(x) => x,
                        None => 0,
                    };
                    let mut r = String::new();
                    put_addr(&mut r, a);
                    put(&mut r, ": 0x");
                    put_hex_fixed(&mut r, b as u32, 2);
                    r
                },
                _ => String::new(),
            },
        };
        assert(t@ == copied_text(*self));
        if t.unicode_len() > 0 {
            self.status = joined("Copied: ", t.as_str());
        }
        let st = self.status.clone();
        self.push_log(st);
    }

    fn on_paste(&mut self)
        ensures
            final(self)@ == next(*old(self), Msg::PasteToSearch, None).0,
    {
        let cs = chars_of(self.status.as_str());
        let n = cs.len();
        let mut i: usize = 0;
        let mut at: Option<usize> = None;
        while i < n
            invariant_except_break
                at is None,
                colon_space(self.status@, 0) == colon_space(self.status@, i as int),
            invariant
                cs@ == self.status@,
                n == cs@.len(),
                i <= n,
            ensures
                colon_space(self.status@, 0) == match at {
                    Some(j) => Some(j as int),
                    None => None,
                },
                at matches Some(j) ==> j + 2 <= n,
            decreases n - i,
        {
            if i + 1 < n && cs[i] == ':' && cs[i + 1] == ' ' {
                at = Some(i);
                break;
            }
            i = i + 1;
        }
        match at {
            Some(j) => {
                self.search = String::from_str(self.status.substring_char(j + 2, n));
            },
            None => {},
        }
    }

    fn on_save_disasm(&self) -> (e: Effect)
        ensures
            e@ == next(*self, Msg::SaveDisasm, None).1,
    {
        match &self.image {
            Some(img) => {
                let mut out = String::new();
                let mut first = true;
                let mut i: usize = 0;
                assert(self.visited@.subrange(0, 0) =~= Seq::<u32>::empty());
                while i < self.visited.len()
                    invariant
                        i <= self.visited@.len(),
                        out@ == join_lines(dump_lines(*img, self.visited@.subrange(0, i as int))),
                        first == (dump_lines(*img, self.visited@.subrange(0, i as int)).len() == 0),
                    decreases self.visited@.len() - i,
                {
                    let pc = self.visited[i];
                    let ghost pre = self.visited@.subrange(0, i as int);
                    assert(self.visited@.subrange(0, i + 1).drop_last() =~= pre);
                    match read_u32(img, pc) {
                        Some(raw) => match Tc16Decoder::new().decode(raw) {
                            Some(d) => {
                                let ghost o0 = out@;
                                if !first {
                                    put(&mut out, "\n");
                                }
                                put_addr(&mut out, pc);
                                put(&mut out, ": ");
                                let t = fmt_decoded(&d);
                                put(&mut out, t.as_str());
                                first = false;
                                let ghost ls = dump_lines(*img, pre);
                                let ghost x = addr_text(pc) + ": "@ + disasm_text(d);
                                assert(ls.push(x).drop_last() =~= ls);
                                assert(ls.len() == 0 ==> out@ =~= x);
                                assert(ls.len() > 0 ==> out@ =~= join_lines(ls) + "\n"@ + x);
                            },
                            None => {},
                        },
                        None => {},
                    }
                    i = i + 1;
                }
                assert(self.visited@.subrange(0, self.visited@.len() as int) =~= self.visited@);
                Effect::WriteDisasm { text: out }
            },
            None => Effect::Nothing,
        }
    }

    fn on_save_image(&self) -> (e: Effect)
        ensures
            e@ == next(*self, Msg::SaveImageBin, None).1,
    {
        match &self.image {
            Some(img) => {
                let bytes = if img.segments.len() > 0 {
                    let b = img.segments[0].bytes.clone();
                    assert(b@ =~= img.segments@[0].bytes@);
                    b
                } else {
                    Vec::new()
                };
                Effect::WriteImage { bytes }
            },
            None => Effect::Nothing,
        }
    }
}

proof fn lemma_logged_len(l: Seq<Seq<char>>, x: Seq<char>)
    ensures
        logged(l, x).len() <= 1000 || logged(l, x).len() == l.len() + 1,
        l.len() <= 1000 ==> logged(l, x).len() <= 1000,
{
}

/// The log is capped: when it holds at most a thousand lines, so it does
/// after any message.
#[verifier::spinoff_prover]
#[verifier::rlimit(40)]
pub proof fn lemma_log_bounded(s: AppState, m: Msg, found: Option<u32>)
    requires
        s@.logs.len() <= 1000,
    ensures
        next(s, m, found).0.logs.len() <= 1000,
{
    assert forall|l: Seq<Seq<char>>, x: Seq<char>| l.len() <= 1000 implies #[trigger] logged(l, x).len()
        <= 1000 by {
        lemma_logged_len(l, x);
    }
    let v = s@;
    match m {
        Msg::HexEditChanged(addr, t) => {
            let f = hex_cell(t@);
            let v1 = AppView {
                hex_edits: if f.len() == 0 {
                    v.hex_edits.remove(addr)
                } else {
                    v.hex_edits.insert(addr, f)
                },
                selected_addr: Some(addr),
                ..v
            };
            if f.len() == 2 {
                let v2 = match v1.image {
                    Some(segs) => poked(v1, segs, addr, byte_value(f)),
                    None => v1,
                };
                assert(v2.logs.len() <= 1000);
            }
        },
        Msg::HexEditCommit(addr) => {
            let byte = if v.hex_edits.contains_key(addr) {
                byte_value(v.hex_edits[addr])
            } else {
                None
            };
            let v1 = match v.image {
                Some(segs) => poked(v, segs, addr, byte),
                None => v,
            };
            assert(v1.logs.len() <= 1000);
        },
        _ => {},
    }
}

/// After an analysis the reached addresses are listed in ascending order,
/// each as often as the analysis reported it.
pub proof fn lemma_visited_sorted(s: AppState, pcs: Vec<u32>, edges: Vec<Edge>, took: Option<String>)
    ensures
        vstd::relations::sorted_by(next(s, Msg::AnalyzedOk(pcs, edges, took), None).0.visited, ascending()),
        next(s, Msg::AnalyzedOk(pcs, edges, took), None).0.visited.to_multiset() == pcs@.to_multiset(),
{
    let leq = ascending();
    assert(vstd::relations::total_ordering(leq)) by {
        assert(vstd::relations::reflexive(leq));
        assert(vstd::relations::antisymmetric(leq));
        assert(vstd::relations::transitive(leq));
        assert(vstd::relations::strongly_connected(leq));
    }
    pcs@.lemma_sort_by_ensures(leq);
}

/// A label saved for the selected address is what selecting that address
/// shows again for editing: its name without surrounding whitespace.
pub proof fn lemma_label_roundtrip(s1: AppState, s2: AppState, pc: u32)
    requires
        s1.selection == Some(pc),
        trim(s1.label_edit@).len() > 0,
        s2@ == next(s1, Msg::SaveLabel, None).0,
    ensures
        next(s2, Msg::SelectPc(pc), None).0.label_edit == trim(s1.label_edit@),
        next(s2, Msg::SelectPc(pc), None).0.selection == Some(pc),
{
}

/// Committing a hex cell changes at most one byte of the image: the byte at
/// the cell's address in the first segment holding it, which becomes the
/// value typed there when that is a byte in hex. Every segment keeps its
/// place, base and length, and every other byte.
pub proof fn lemma_hex_commit_frame(s: AppState, addr: u32, img: Image)
    requires
        s.image == Some(img),
    ensures
        ({
            let segs = image_view(img);
            let after = next(s, Msg::HexEditCommit(addr), None).0.image;
            &&& after is Some
            &&& after->0.len() == segs.len()
            &&& forall|j: int|
                0 <= j < segs.len() ==> {
                    &&& (#[trigger] after->0[j]).base == segs[j].base
                    &&& after->0[j].bytes.len() == segs[j].bytes.len()
                    &&& forall|o: int|
                        0 <= o < segs[j].bytes.len() && !(seg_holding(segs, addr, 0) == Some(j) && o
                            == addr - segs[j].base) ==> #[trigger] after->0[j].bytes[o] == segs[j].bytes[o]
                }
        }),
        ({
            let segs = image_view(img);
            let after = next(s, Msg::HexEditCommit(addr), None).0.image;
            forall|k: int|
                seg_holding(segs, addr, 0) == Some(k) && s@.hex_edits.contains_key(addr) && byte_value(
                    s@.hex_edits[addr],
                ) is Some ==> #[trigger] after->0[k].bytes[addr - segs[k].base] == byte_value(
                    s@.hex_edits[addr],
                )->0
        }),
{
    let segs = image_view(img);
    lemma_seg_holding_in(segs, addr, 0);
}

proof fn lemma_seg_holding_in(segs: Seq<SegmentView>, addr: u32, i: int)
    requires
        0 <= i,
    ensures
        seg_holding(segs, addr, i) matches Some(k) ==> i <= k < segs.len() && holds_addr(segs[k], addr),
    decreases segs.len() - i,
{
    if i < segs.len() && !holds_addr(segs[i], addr) {
        lemma_seg_holding_in(segs, addr, i + 1);
    }
}

/// Whether the search for `addr` passes only segments whose end fits in 32 bits.
fn ends_fit_of(img: &Image, addr: u32) -> (r: bool)
    ensures
        r == ends_fit(image_view(*img), addr, 0),
{
    let ghost segs = image_view(*img);
    let n = img.segments.len();
    let mut k: usize = 0;
    while k < n
        invariant
            n == img.segments@.len(),
            segs == image_view(*img),
            k <= n,
            ends_fit(segs, addr, 0) == ends_fit(segs, addr, k as int),
        decreases n - k,
    {
        let sg = &img.segments[k];
        assert(segs[k as int] == segment_view(*sg));
        let len32 = sg.bytes.len() as u64 % 0x1_0000_0000;
        assert(len32 as int == short_len(segs[k as int]));
        let end = sg.base as u64 + len32;
        if end > 0xFFFF_FFFF {
            return false;
        }
        if sg.base <= addr && (addr as u64) < end {
            return true;
        }
        k = k + 1;
    }
    true
}

impl AppState {
    fn on_path(&mut self, p: String)
        ensures
            final(self)@ == next(*old(self), Msg::PathChanged(p), None).0,
    {
        let line = joined("PathChanged: ", p.as_str());
        self.path = p;
        self.push_log(line);
    }

    fn on_base(&mut self, p: String)
        ensures
            final(self)@ == next(*old(self), Msg::BaseChanged(p), None).0,
    {
        let line = joined("BaseChanged: ", p.as_str());
        self.base = p;
        self.push_log(line);
    }

    fn on_skip(&mut self, p: String)
        ensures
            final(self)@ == next(*old(self), Msg::SkipChanged(p), None).0,
    {
        let line = joined("SkipChanged: ", p.as_str());
        self.skip = p;
        self.push_log(line);
    }

    fn on_bytes(&mut self, b: bool)
        ensures
            final(self)@ == next(*old(self), Msg::ToggleBytes(b), None).0,
    {
        let line = joined("ToggleBytes: ", if b { "true" } else { "false" });
        self.show_bytes = b;
        self.push_log(line);
    }

    fn on_search(&mut self, q: String)
        ensures
            final(self)@ == next(*old(self), Msg::SearchChanged(q), None).0,
    {
        let line = joined("Search: ", q.as_str());
        self.search = q;
        self.push_log(line);
    }

    fn on_label_edit(&mut self, q: String)
        ensures
            final(self)@ == next(*old(self), Msg::LabelEditChanged(q), None).0,
    {
        let line = joined("LabelEdit: ", q.as_str());
        self.label_edit = q;
        self.push_log(line);
    }

    fn on_load_failed(&mut self, e: String)
        ensures
            final(self)@ == next(*old(self), Msg::LoadedErr(e), None).0,
    {
        let st = joined("Load error: ", e.as_str());
        self.image = None;
        self.visited = Vec::new();
        self.set_status(st);
    }

    fn on_analyze_failed(&mut self, e: String)
        ensures
            final(self)@ == next(*old(self), Msg::AnalyzedErr(e), None).0,
    {
        let st = joined("Analyze error: ", e.as_str());
        self.visited = Vec::new();
        self.set_status(st);
    }

    fn on_labels_saved(&mut self, r: Result<(), String>)
        ensures
            final(self)@ == next(*old(self), Msg::LabelsSaved(r), None).0,
    {
        let st = match &r {
            Ok(_) => joined("Labels saved to ", self.labels_path.as_str()),
            Err(e) => joined("Save error: ", e.as_str()),
        };
        self.set_status(st);
    }

    fn on_labels_loaded(&mut self, r: Result<HashMap<u32, String>, String>)
        ensures
            final(self)@ == next(*old(self), Msg::LabelsLoaded(r), None).0,
    {
        match r {
            Ok(m) => {
                let st = joined("Labels loaded from ", self.labels_path.as_str());
                self.labels = m;
                self.set_status(st);
            },
            Err(e) => {
                let st = joined("Load error: ", e.as_str());
                self.set_status(st);
            },
        }
    }

    fn on_saved(&mut self, r: Result<(), String>, what: &str)
        requires
            what@ == "Saved disasm.txt"@ || what@ == "Saved image.bin"@,
        ensures
            final(self)@ == with_status(
                old(self)@,
                match r {
                    Ok(_) => what@,
                    Err(e) => "Save failed: "@ + e@,
                },
            ),
    {
        let st = match &r {
            Ok(_) => String::from_str(what),
            Err(e) => joined("Save failed: ", e.as_str()),
        };
        self.set_status(st);
    }

    fn save_labels_job(&self) -> (e: Effect)
        ensures
            e@ == next(*self, Msg::SaveLabels, None).1,
    {
        let path = self.labels_path.clone();
        let labels = self.labels.clone();
        Effect::SaveLabels { path, labels }
    }

    /// Whether `msg` can be handled without a segment end overflowing (see `fits_msg`).
    pub fn fits(&self, msg: &Msg) -> (r: bool)
        ensures
            r == fits_msg(*self, msg),
    {
        match (msg, &self.image) {
            (Msg::HexEditChanged(addr, t), Some(img)) => {
                let f = hex_cell_of(t.as_str());
                if f.unicode_len() == 2 {
                    ends_fit_of(img, *addr)
                } else {
                    true
                }
            },
            (Msg::HexEditCommit(addr), Some(img)) => ends_fit_of(img, *addr),
            _ => true,
        }
    }

    /// Handles one message: updates the state and says which job to start
    /// (see `next`).
    pub fn update(&mut self, msg: Msg) -> (e: Effect)
        requires
            fits_msg(*old(self), &msg),
        ensures
            msg is SearchGo ==> exists|found: Option<u32>|
                nav_result(old(self).search@, old(self).labels@, found) && (final(self)@, e@) == next(
                    *old(self),
                    msg,
                    found,
                ),
            !(msg is SearchGo) ==> (final(self)@, e@) == next(*old(self), msg, None),
    {
        match msg {
            Msg::PathChanged(p) => {
                self.on_path(p);
                Effect::Nothing
            },
            Msg::BaseChanged(p) => {
                self.on_base(p);
                Effect::Nothing
            },
            Msg::SkipChanged(p) => {
                self.on_skip(p);
                Effect::Nothing
            },
            Msg::ToggleBytes(b) => {
                self.on_bytes(b);
                Effect::Nothing
            },
            Msg::SwitchTab(t) => {
                self.tab = t;
                Effect::Nothing
            },
            Msg::SearchChanged(q) => {
                self.on_search(q);
                Effect::Nothing
            },
            Msg::SelectPc(pc) => {
                self.on_select_pc(pc);
                Effect::Nothing
            },
            Msg::LabelEditChanged(q) => {
                self.on_label_edit(q);
                Effect::Nothing
            },
            Msg::SaveLabel => {
                self.on_save_label();
                Effect::Nothing
            },
            Msg::OpenExample { exists } => self.on_open_example(exists),
            Msg::Load { exists } => self.on_load(exists),
            Msg::LoadedOk(img) => self.on_loaded(img),
            Msg::LoadedErr(e) => {
                self.on_load_failed(e);
                Effect::Nothing
            },
            Msg::Analyze => self.on_analyze(),
            Msg::AnalyzedOk(pcs, edges, took) => {
                self.on_analyzed(pcs, edges, took);
                Effect::Nothing
            },
            Msg::AnalyzedErr(e) => {
                self.on_analyze_failed(e);
                Effect::Nothing
            },
            Msg::ToggleSettings => {
                self.show_settings = !self.show_settings;
                Effect::Nothing
            },
            Msg::ThemePicked(t) => {
                self.theme = t;
                Effect::Nothing
            },
            Msg::FontSizePicked(z) => {
                self.font_size = z;
                Effect::Nothing
            },
            Msg::CodeColorPicked(c) => {
                self.code_color = c;
                Effect::Nothing
            },
            Msg::SearchGo => {
                let found = self.on_search_go();
                Effect::Nothing
            },
            Msg::ToggleEdgeFt(b) => {
                self.show_ft = b;
                Effect::Nothing
            },
            Msg::ToggleEdgeBr(b) => {
                self.show_br = b;
                Effect::Nothing
            },
            Msg::ToggleEdgeCbr(b) => {
                self.show_cbr = b;
                Effect::Nothing
            },
            Msg::ToggleEdgeCall(b) => {
                self.show_call = b;
                Effect::Nothing
            },
            Msg::SaveLabels => self.save_labels_job(),
            Msg::LabelsSaved(r) => {
                self.on_labels_saved(r);
                Effect::Nothing
            },
            Msg::LoadLabels => Effect::LoadLabels { path: self.labels_path.clone() },
            Msg::LabelsLoaded(r) => {
                self.on_labels_loaded(r);
                Effect::Nothing
            },
            Msg::SelectAddr(a) => {
                self.selected_addr = Some(a);
                Effect::Nothing
            },
            Msg::HexEditChanged(addr, t) => self.on_hex_changed(addr, t),
            Msg::HexEditCommit(addr) => self.on_hex_commit(addr),
            Msg::CopySelection => {
                self.on_copy();
                Effect::Nothing
            },
            Msg::PasteToSearch => {
                self.on_paste();
                Effect::Nothing
            },
            Msg::SaveDisasm => self.on_save_disasm(),
            Msg::DisasmSaved(r) => {
                self.on_saved(r, "Saved disasm.txt");
                Effect::Nothing
            },
            Msg::SaveImageBin => self.on_save_image(),
            Msg::ImageSaved(r) => {
                self.on_saved(r, "Saved image.bin");
                Effect::Nothing
            },
        }
    }
}

/// The status line while a file loads.
fn loading_line(path: &str, base: u32, skip: usize) -> (r: String)
    ensures
        r@ == loading_text(path@, base, skip),
{
    let mut r = String::from_str("Loading ");
    put(&mut r, path);
    put(&mut r, " base=");
    put_hex(&mut r, base);
    put(&mut r, " skip=");
    put_usize(&mut r, skip);
    put(&mut r, "…");
    assert(r@ =~= loading_text(path@, base, skip));
    r
}

} // verus!
