//! The tray menu: its entries, what they show, and what a click on each of them asks for.
use crate::config::{AppConfig, ConfigSampling};
use crate::gpu;
use crate::gpu::GpuAdapter;
use crate::reading;
use crate::search;
use crate::text;
use vstd::prelude::*;

verus! {

pub const GPU_SEND_PREFIX: &'static str = "gpu-send:";

pub const GPU_RECV_PREFIX: &'static str = "gpu-recv:";

pub const FRAME_RATE_PREFIX: &'static str = "fps:";

pub const SAMPLING_PREFIX: &'static str = "sampling:";

/// What the application is doing.
#[derive(Clone, Copy, Debug, PartialEq, Eq, Structural)]
pub enum ActiveMode {
    Idle,
    Sender,
    Receiver,
}

#[derive(Clone, Copy, Debug, PartialEq, Eq, Structural)]
pub enum GpuSide {
    Sender,
    Receiver,
}

impl GpuSide {
    pub open spec fn spec_label(self) -> Seq<char> {
        match self {
            GpuSide::Sender => "sender"@,
            GpuSide::Receiver => "receiver"@,
        }
    }

    pub fn label(self) -> (r: &'static str)
        ensures
            r@ == self.spec_label(),
    {
        match self {
            GpuSide::Sender => "sender",
            GpuSide::Receiver => "receiver",
        }
    }
}

/// What a click asks for.
#[derive(Clone, Copy, Debug, PartialEq, Eq, Structural)]
pub enum MenuAction {
    StartSender,
    StartReceiver,
    Stop,
    ToggleAudio,
    SelectGpu(GpuSide),
    SelectFrameRate,
    SelectSampling,
    ToggleAutostart,
    CheckUpdate,
    RunDiagnostics,
    RunPeerDiagnostics,
    InstallVdd,
    ListVdd,
    AttachVdd,
    EnableVdd,
    DisableVdd,
    RemoveVdd,
    OpenDisplaySettings,
    OpenVdd,
    OpenConfig,
    ReloadConfig,
    Quit,
    Nothing,
}

/// The action of an entry, by its id.
pub open spec fn action_of(id: Seq<char>) -> MenuAction {
    if id == "start-sender"@ {
        MenuAction::StartSender
    } else if id == "start-receiver"@ {
        MenuAction::StartReceiver
    } else if id == "stop"@ {
        MenuAction::Stop
    } else if id == "toggle-audio"@ {
        MenuAction::ToggleAudio
    } else if text::starts_with(id, GPU_SEND_PREFIX@) {
        MenuAction::SelectGpu(GpuSide::Sender)
    } else if text::starts_with(id, GPU_RECV_PREFIX@) {
        MenuAction::SelectGpu(GpuSide::Receiver)
    } else if text::starts_with(id, FRAME_RATE_PREFIX@) {
        MenuAction::SelectFrameRate
    } else if text::starts_with(id, SAMPLING_PREFIX@) {
        MenuAction::SelectSampling
    } else if id == "autostart"@ {
        MenuAction::ToggleAutostart
    } else if id == "check-update"@ {
        MenuAction::CheckUpdate
    } else if id == "run-diagnostics"@ {
        MenuAction::RunDiagnostics
    } else if id == "run-peer-diagnostics"@ {
        MenuAction::RunPeerDiagnostics
    } else if id == "install-vdd"@ {
        MenuAction::InstallVdd
    } else if id == "list-vdd"@ {
        MenuAction::ListVdd
    } else if id == "attach-vdd"@ {
        MenuAction::AttachVdd
    } else if id == "enable-vdd"@ {
        MenuAction::EnableVdd
    } else if id == "disable-vdd"@ {
        MenuAction::DisableVdd
    } else if id == "remove-vdd"@ {
        MenuAction::RemoveVdd
    } else if id == "open-display-settings"@ {
        MenuAction::OpenDisplaySettings
    } else if id == "open-vdd"@ {
        MenuAction::OpenVdd
    } else if id == "open-config"@ {
        MenuAction::OpenConfig
    } else if id == "reload-config"@ {
        MenuAction::ReloadConfig
    } else if id == "quit"@ {
        MenuAction::Quit
    } else {
        MenuAction::Nothing
    }
}

/// The action of the entry that was clicked.
pub fn menu_action(id: &str) -> (r: MenuAction)
    ensures
        r == action_of(id@),
{
    let chars = text::chars_of(id);
    if text::str_equal(id, "start-sender") {
        MenuAction::StartSender
    } else if text::str_equal(id, "start-receiver") {
        MenuAction::StartReceiver
    } else if text::str_equal(id, "stop") {
        MenuAction::Stop
    } else if text::str_equal(id, "toggle-audio") {
        MenuAction::ToggleAudio
    } else if text::has_prefix(&chars, GPU_SEND_PREFIX) {
        MenuAction::SelectGpu(GpuSide::Sender)
    } else if text::has_prefix(&chars, GPU_RECV_PREFIX) {
        MenuAction::SelectGpu(GpuSide::Receiver)
    } else if text::has_prefix(&chars, FRAME_RATE_PREFIX) {
        MenuAction::SelectFrameRate
    } else if text::has_prefix(&chars, SAMPLING_PREFIX) {
        MenuAction::SelectSampling
    } else if text::str_equal(id, "autostart") {
        MenuAction::ToggleAutostart
    } else if text::str_equal(id, "check-update") {
        MenuAction::CheckUpdate
    } else if text::str_equal(id, "run-diagnostics") {
        MenuAction::RunDiagnostics
    } else if text::str_equal(id, "run-peer-diagnostics") {
        MenuAction::RunPeerDiagnostics
    } else if text::str_equal(id, "install-vdd") {
        MenuAction::InstallVdd
    } else if text::str_equal(id, "list-vdd") {
        MenuAction::ListVdd
    } else if text::str_equal(id, "attach-vdd") {
        MenuAction::AttachVdd
    } else if text::str_equal(id, "enable-vdd") {
        MenuAction::EnableVdd
    } else if text::str_equal(id, "disable-vdd") {
        MenuAction::DisableVdd
    } else if text::str_equal(id, "remove-vdd") {
        MenuAction::RemoveVdd
    } else if text::str_equal(id, "open-display-settings") {
        MenuAction::OpenDisplaySettings
    } else if text::str_equal(id, "open-vdd") {
        MenuAction::OpenVdd
    } else if text::str_equal(id, "open-config") {
        MenuAction::OpenConfig
    } else if text::str_equal(id, "reload-config") {
        MenuAction::ReloadConfig
    } else if text::str_equal(id, "quit") {
        MenuAction::Quit
    } else {
        MenuAction::Nothing
    }
}

/// One of the choices of a submenu.
#[derive(Debug, PartialEq, Eq)]
pub struct MenuChoice {
    pub id: String,
    pub label: String,
    pub checked: bool,
}

pub struct ChoiceModel {
    pub id: Seq<char>,
    pub label: Seq<char>,
    pub checked: bool,
}

impl MenuChoice {
    pub open spec fn model(self) -> ChoiceModel {
        ChoiceModel { id: self.id@, label: self.label@, checked: self.checked }
    }
}

pub open spec fn choice_models(choices: Seq<MenuChoice>) -> Seq<ChoiceModel> {
    Seq::new(choices.len(), |i: int| choices[i].model())
}

/// The offered rates, plus whatever rate the configuration already asks for: a menu that cannot
/// show a hand-edited rate would discard it with any click.
pub open spec fn rates_of(configured: u32) -> Seq<u32> {
    if configured == 0 || configured == 15 || configured == 30 || configured == 60 {
        seq![15, 30, 60]
    } else if configured < 15 {
        seq![configured, 15, 30, 60]
    } else if configured < 30 {
        seq![15, configured, 30, 60]
    } else if configured < 60 {
        seq![15, 30, configured, 60]
    } else {
        seq![15, 30, 60, configured]
    }
}

/// Capture rates offered in the tray, in menu order. 30 is the default because it is what a laptop
/// and a Wi-Fi link comfortably sustain, and 60 is one click away where that is no compromise.
pub fn frame_rate_menu_rates(configured: u32) -> (r: Vec<u32>)
    ensures
        r@ == rates_of(configured),
{
    if configured == 0 || configured == 15 || configured == 30 || configured == 60 {
        vec![15, 30, 60]
    } else if configured < 15 {
        vec![configured, 15, 30, 60]
    } else if configured < 30 {
        vec![15, configured, 30, 60]
    } else if configured < 60 {
        vec![15, 30, configured, 60]
    } else {
        vec![15, 30, 60, configured]
    }
}

/// The rates of the menu ascend, so none is shown twice; the standard ones are always among them,
/// and so is the configured one.
pub proof fn law_frame_rates_are_shown_once(configured: u32)
    ensures
        forall|i: int, j: int|
            0 <= i < j < rates_of(configured).len() ==> rates_of(configured)[i] < rates_of(
                configured,
            )[j],
        rates_of(configured).contains(15),
        rates_of(configured).contains(30),
        rates_of(configured).contains(60),
        configured > 0 ==> rates_of(configured).contains(configured),
        forall|i: int|
            0 <= i < rates_of(configured).len() ==> {
                let rate = #[trigger] rates_of(configured)[i];
                rate == 15 || rate == 30 || rate == 60 || rate == configured
            },
{
    let rates = rates_of(configured);
    if configured == 0 || configured == 15 || configured == 30 || configured == 60 {
        assert(rates[0] == 15 && rates[1] == 30 && rates[2] == 60);
    } else if configured < 15 {
        assert(rates[0] == configured && rates[1] == 15 && rates[2] == 30 && rates[3] == 60);
    } else if configured < 30 {
        assert(rates[0] == 15 && rates[1] == configured && rates[2] == 30 && rates[3] == 60);
    } else if configured < 60 {
        assert(rates[0] == 15 && rates[1] == 30 && rates[2] == configured && rates[3] == 60);
    } else {
        assert(rates[0] == 15 && rates[1] == 30 && rates[2] == 60 && rates[3] == configured);
    }
}

/// The rate that the id of a choice names.
pub open spec fn rate_of_id(id: Seq<char>) -> Option<nat> {
    if text::starts_with(id, FRAME_RATE_PREFIX@) {
        text::parse_unsigned(id.skip(FRAME_RATE_PREFIX@.len() as int), u32::MAX as nat)
    } else {
        None
    }
}

/// Reads the rate out of the id of a choice.
pub fn frame_rate_for_menu_id(id: &str) -> (r: Option<u32>)
    ensures
        match r {
            Some(rate) => rate_of_id(id@) == Some(rate as nat),
            None => rate_of_id(id@) is None,
        },
{
    let chars = text::chars_of(id);
    if !text::has_prefix(&chars, FRAME_RATE_PREFIX) {
        return None;
    }
    let prefix = text::chars_of(FRAME_RATE_PREFIX);
    let rest = text::copy_range(&chars, prefix.len(), chars.len());
    assert(rest@ == id@.skip(FRAME_RATE_PREFIX@.len() as int));
    let rate: u64 = text::parse_number(&rest, u32::MAX as u64)?;
    Some(rate as u32)
}

pub open spec fn rate_choice(rate: u32, configured: u32) -> ChoiceModel {
    ChoiceModel {
        id: FRAME_RATE_PREFIX@ + text::dec(rate as nat),
        label: text::dec(rate as nat) + " fps"@,
        checked: rate == configured,
    }
}

pub open spec fn rate_choices(configured: u32) -> Seq<ChoiceModel> {
    Seq::new(
        rates_of(configured).len(),
        |i: int| rate_choice(rates_of(configured)[i], configured),
    )
}

/// The choices of a capture rate, of which the configured one is checked.
pub fn frame_rate_choices(configured: u32) -> (r: Vec<MenuChoice>)
    ensures
        choice_models(r@) == rate_choices(configured),
{
    let rates = frame_rate_menu_rates(configured);
    let mut out: Vec<MenuChoice> = Vec::new();
    let mut i: usize = 0;
    while i < rates.len()
        invariant
            i <= rates.len(),
            rates@ == rates_of(configured),
            choice_models(out@) == rate_choices(configured).take(i as int),
        decreases rates.len() - i,
    {
        let rate: u32 = rates[i];
        let mut id = FRAME_RATE_PREFIX.to_owned();
        text::push_dec(&mut id, rate as u64);
        let mut label = text::dec_string(rate as u64);
        label.push_str(" fps");
        let ghost before = out@;
        let choice = MenuChoice { id, label, checked: rate == configured };
        assert(choice.model() == rate_choices(configured)[i as int]);
        out.push(choice);
        assert(choice_models(out@) == choice_models(before).push(choice.model()));
        assert(rate_choices(configured).take(i + 1) == rate_choices(configured).take(i as int).push(
            rate_choices(configured)[i as int],
        ));
        i += 1;
    }
    assert(rate_choices(configured).take(rates@.len() as int) == rate_choices(configured));
    out
}

/// A click on a capture rate resolves to the rate that it shows.
pub proof fn law_frame_rate_click_resolves_to_its_rate(rate: u32, configured: u32)
    ensures
        rate_of_id(rate_choice(rate, configured).id) == Some(rate as nat),
        action_of(rate_choice(rate, configured).id) is SelectFrameRate,
{
    let id = rate_choice(rate, configured).id;
    let digits = text::dec(rate as nat);
    reveal_strlit("fps:");
    reveal_strlit("gpu-send:");
    reveal_strlit("gpu-recv:");
    reveal_strlit("start-sender");
    reveal_strlit("start-receiver");
    reveal_strlit("stop");
    reveal_strlit("toggle-audio");
    assert(id[0] == 'f');
    assert("gpu-send:"@[0] == 'g' && "gpu-recv:"@[0] == 'g');
    assert("start-sender"@[0] == 's' && "start-receiver"@[0] == 's' && "stop"@[0] == 's'
        && "toggle-audio"@[0] == 't');
    assert(id.subrange(0, 4) == FRAME_RATE_PREFIX@);
    assert(id.skip(4) == digits);
    assert(!text::starts_with(id, GPU_SEND_PREFIX@)) by {
        if text::starts_with(id, GPU_SEND_PREFIX@) {
            assert(id.subrange(0, 9)[0] == id[0]);
        }
    }
    assert(!text::starts_with(id, GPU_RECV_PREFIX@)) by {
        if text::starts_with(id, GPU_RECV_PREFIX@) {
            assert(id.subrange(0, 9)[0] == id[0]);
        }
    }
    text::law_decimal_round_trip(rate as nat, u32::MAX as nat);
}

/// One of the choices of a GPU, with the value that it stands for in the configuration.
#[derive(Debug, PartialEq, Eq)]
pub struct GpuMenuChoice {
    /// Value written to config: "auto" or what identifies the adapter.
    pub selection: String,
    pub id: String,
    pub label: String,
    pub checked: bool,
}

pub struct GpuChoiceModel {
    pub selection: Seq<char>,
    pub choice: ChoiceModel,
}

impl GpuMenuChoice {
    pub open spec fn model(self) -> GpuChoiceModel {
        GpuChoiceModel {
            selection: self.selection@,
            choice: ChoiceModel { id: self.id@, label: self.label@, checked: self.checked },
        }
    }
}

pub open spec fn gpu_choice_models(choices: Seq<GpuMenuChoice>) -> Seq<GpuChoiceModel> {
    Seq::new(choices.len(), |i: int| choices[i].model())
}

/// Whether a choice is the configured one.
pub open spec fn active_choice(configured: Seq<char>, selection: Seq<char>) -> bool {
    if gpu::auto_selection(selection) {
        gpu::auto_selection(configured)
    } else {
        !gpu::auto_selection(configured) && text::same_ignoring_case(configured, selection)
    }
}

pub fn gpu_choice_is_active(configured: &str, selection: &str) -> (r: bool)
    ensures
        r == active_choice(configured@, selection@),
{
    if gpu::is_auto(selection) {
        return gpu::is_auto(configured);
    }
    !gpu::is_auto(configured) && text::equal_ignoring_case(configured, selection)
}

/// Whether more than one adapter has the description of this one.
pub open spec fn ambiguous(adapters: Seq<GpuAdapter>, adapter: GpuAdapter) -> bool {
    search::kept(
        adapters,
        |other: GpuAdapter| text::same_ignoring_case(other.description@, adapter.description@),
    ).len() > 1
}

pub open spec fn selection_of(adapters: Seq<GpuAdapter>, adapter: GpuAdapter) -> Seq<char> {
    if ambiguous(adapters, adapter) {
        text::dec(adapter.index as nat)
    } else {
        adapter.description@
    }
}

pub open spec fn label_of(adapters: Seq<GpuAdapter>, adapter: GpuAdapter) -> Seq<char> {
    if ambiguous(adapters, adapter) {
        adapter.description@ + " (GPU "@ + text::dec(adapter.index as nat) + ")"@
    } else {
        adapter.description@
    }
}

/// Two adapters can report the same description, and then the name identifies neither of them;
/// those fall back to the DXGI index, which at least stays unambiguous.
pub fn gpu_choice_selection_and_label(adapters: &Vec<GpuAdapter>, adapter: &GpuAdapter) -> (r: (
    String,
    String,
))
    ensures
        r.0@ == selection_of(adapters@, *adapter),
        r.1@ == label_of(adapters@, *adapter),
{
    let ghost p = |other: GpuAdapter|
        text::same_ignoring_case(other.description@, adapter.description@);
    let mut same: usize = 0;
    let mut i: usize = 0;
    proof {
        search::lemma_kept_done(adapters@, p);
    }
    while i < adapters.len()
        invariant
            i <= adapters.len(),
            p == (|other: GpuAdapter|
                text::same_ignoring_case(other.description@, adapter.description@)),
            same == search::kept(adapters@.take(i as int), p).len(),
            same <= i,
        decreases adapters.len() - i,
    {
        proof {
            search::lemma_kept_step(adapters@, p, i as int);
        }
        if text::equal_ignoring_case(&adapters[i].description, &adapter.description) {
            same += 1;
        }
        i += 1;
    }
    proof {
        search::lemma_kept_done(adapters@, p);
    }
    if same > 1 {
        let mut label = adapter.description.clone();
        label.push_str(" (GPU ");
        text::push_dec(&mut label, adapter.index as u64);
        label.push_str(")");
        (text::dec_string(adapter.index as u64), label)
    } else {
        (adapter.selection(), adapter.description.clone())
    }
}

pub open spec fn auto_gpu_choice(prefix: Seq<char>, configured: Seq<char>) -> GpuChoiceModel {
    GpuChoiceModel {
        selection: gpu::AUTO@,
        choice: ChoiceModel {
            id: prefix + gpu::AUTO@,
            label: "Automatic"@,
            checked: active_choice(configured, gpu::AUTO@),
        },
    }
}

pub open spec fn adapter_choice(
    prefix: Seq<char>,
    adapters: Seq<GpuAdapter>,
    adapter: GpuAdapter,
    configured: Seq<char>,
) -> GpuChoiceModel {
    GpuChoiceModel {
        selection: selection_of(adapters, adapter),
        choice: ChoiceModel {
            id: prefix + text::dec(adapter.index as nat),
            label: label_of(adapters, adapter),
            checked: active_choice(configured, selection_of(adapters, adapter)),
        },
    }
}

/// The choices of a GPU: an automatic one, then every adapter.
pub open spec fn gpu_choices_of(
    prefix: Seq<char>,
    adapters: Seq<GpuAdapter>,
    configured: Seq<char>,
) -> Seq<GpuChoiceModel> {
    seq![auto_gpu_choice(prefix, configured)] + Seq::new(
        adapters.len(),
        |i: int| adapter_choice(prefix, adapters, adapters[i], configured),
    )
}

pub fn gpu_choices(id_prefix: &str, adapters: &Vec<GpuAdapter>, configured: &str) -> (r: Vec<
    GpuMenuChoice,
>)
    ensures
        gpu_choice_models(r@) == gpu_choices_of(id_prefix@, adapters@, configured@),
{
    let mut id = id_prefix.to_owned();
    id.push_str(gpu::AUTO);
    let automatic = GpuMenuChoice {
        selection: gpu::AUTO.to_owned(),
        id,
        label: "Automatic".to_owned(),
        checked: gpu_choice_is_active(configured, gpu::AUTO),
    };
    let ghost all = gpu_choices_of(id_prefix@, adapters@, configured@);
    assert(automatic.model() == all[0]);
    let mut out: Vec<GpuMenuChoice> = Vec::new();
    out.push(automatic);
    assert(gpu_choice_models(out@) == all.take(1));
    let mut i: usize = 0;
    while i < adapters.len()
        invariant
            i <= adapters.len(),
            all == gpu_choices_of(id_prefix@, adapters@, configured@),
            gpu_choice_models(out@) == all.take(i + 1),
        decreases adapters.len() - i,
    {
        let adapter = &adapters[i];
        let (selection, label) = gpu_choice_selection_and_label(adapters, adapter);
        let mut id = id_prefix.to_owned();
        text::push_dec(&mut id, adapter.index as u64);
        let checked = gpu_choice_is_active(configured, &selection);
        let ghost before = out@;
        let choice = GpuMenuChoice { selection, id, label, checked };
        assert(choice.model() == all[i + 1]);
        out.push(choice);
        assert(gpu_choice_models(out@) == gpu_choice_models(before).push(choice.model()));
        assert(all.take(i + 2) == all.take(i + 1).push(all[i + 1]));
        i += 1;
    }
    assert(all.take(all.len() as int) == all);
    out
}

/// Two choices of a GPU that are both checked name the same one, or both leave it open.
pub proof fn law_checked_gpu_choices_agree(
    configured: Seq<char>,
    first: Seq<char>,
    second: Seq<char>,
)
    requires
        active_choice(configured, first),
        active_choice(configured, second),
    ensures
        gpu::auto_selection(first) == gpu::auto_selection(second),
        !gpu::auto_selection(first) ==> text::same_ignoring_case(first, second),
{
}

pub open spec fn sampling_label(sampling: ConfigSampling) -> Seq<char> {
    match sampling {
        ConfigSampling::Auto => "Automatic"@,
        ConfigSampling::Linear => "Linear"@,
        ConfigSampling::Point => "Point"@,
    }
}

pub open spec fn sampling_choice(sampling: ConfigSampling, configured: ConfigSampling) ->
    ChoiceModel {
    ChoiceModel {
        id: SAMPLING_PREFIX@ + sampling.key_text(),
        label: sampling_label(sampling),
        checked: sampling == configured,
    }
}

pub open spec fn sampling_choices_of(configured: ConfigSampling) -> Seq<ChoiceModel> {
    seq![
        sampling_choice(ConfigSampling::Auto, configured),
        sampling_choice(ConfigSampling::Linear, configured),
        sampling_choice(ConfigSampling::Point, configured),
    ]
}

fn one_sampling_choice(sampling: ConfigSampling, configured: ConfigSampling) -> (r: MenuChoice)
    ensures
        r.model() == sampling_choice(sampling, configured),
{
    let mut id = SAMPLING_PREFIX.to_owned();
    id.push_str(sampling.key());
    let label = match sampling {
        ConfigSampling::Auto => "Automatic".to_owned(),
        ConfigSampling::Linear => "Linear".to_owned(),
        ConfigSampling::Point => "Point".to_owned(),
    };
    MenuChoice { id, label, checked: sampling == configured }
}

/// The choices of a scaling filter, of which the configured one is checked.
pub fn sampling_choices(configured: ConfigSampling) -> (r: Vec<MenuChoice>)
    ensures
        choice_models(r@) == sampling_choices_of(configured),
{
    let out = vec![
        one_sampling_choice(ConfigSampling::Auto, configured),
        one_sampling_choice(ConfigSampling::Linear, configured),
        one_sampling_choice(ConfigSampling::Point, configured),
    ];
    assert(choice_models(out@) == sampling_choices_of(configured));
    out
}

/// The scaling filter that the id of a choice names.
pub fn sampling_for_menu_id(id: &str) -> (r: Option<ConfigSampling>)
    ensures
        match r {
            Some(sampling) => id@ == SAMPLING_PREFIX@ + sampling.key_text(),
            None => forall|sampling: ConfigSampling|
                id@ != SAMPLING_PREFIX@ + #[trigger] sampling.key_text(),
        },
{
    let automatic = one_sampling_choice(ConfigSampling::Auto, ConfigSampling::Auto);
    let linear = one_sampling_choice(ConfigSampling::Linear, ConfigSampling::Auto);
    let point = one_sampling_choice(ConfigSampling::Point, ConfigSampling::Auto);
    assert(automatic.model().id == automatic.id@);
    assert(linear.model().id == linear.id@);
    assert(point.model().id == point.id@);
    if text::str_equal(id, &automatic.id) {
        Some(ConfigSampling::Auto)
    } else if text::str_equal(id, &linear.id) {
        Some(ConfigSampling::Linear)
    } else if text::str_equal(id, &point.id) {
        Some(ConfigSampling::Point)
    } else {
        None
    }
}

/// A click on a scaling filter resolves to the one that it shows: no two share an id.
pub proof fn law_sampling_ids_are_distinct(a: ConfigSampling, b: ConfigSampling)
    requires
        SAMPLING_PREFIX@ + a.key_text() == SAMPLING_PREFIX@ + b.key_text(),
    ensures
        a == b,
{
    reveal_strlit("auto");
    reveal_strlit("linear");
    reveal_strlit("point");
    let n = SAMPLING_PREFIX@.len();
    assert((SAMPLING_PREFIX@ + a.key_text())[n as int] == a.key_text()[0]);
    assert((SAMPLING_PREFIX@ + b.key_text())[n as int] == b.key_text()[0]);
    assert("auto"@[0] == 'a' && "linear"@[0] == 'l' && "point"@[0] == 'p');
}

/// An entry of the menu.
#[derive(Debug, PartialEq, Eq)]
pub enum MenuEntry {
    Item { id: String, label: String, enabled: bool },
    Separator,
    Submenu { title: String, choices: Vec<MenuChoice> },
}

pub enum EntryModel {
    Item(Seq<char>, Seq<char>, bool),
    Separator,
    Submenu(Seq<char>, Seq<ChoiceModel>),
}

impl MenuEntry {
    pub open spec fn model(self) -> EntryModel {
        match self {
            MenuEntry::Item { id, label, enabled } => EntryModel::Item(id@, label@, enabled),
            MenuEntry::Separator => EntryModel::Separator,
            MenuEntry::Submenu { title, choices } => EntryModel::Submenu(
                title@,
                choice_models(choices@),
            ),
        }
    }
}

pub open spec fn entry_models(entries: Seq<MenuEntry>) -> Seq<EntryModel> {
    Seq::new(entries.len(), |i: int| entries[i].model())
}

fn push_entry(out: &mut Vec<MenuEntry>, entry: MenuEntry)
    ensures
        entry_models(final(out)@) == entry_models(old(out)@).push(entry.model()),
{
    out.push(entry);
    assert(entry_models(out@) == entry_models(old(out)@).push(entry.model()));
}

fn push_item(out: &mut Vec<MenuEntry>, id: &str, label: &str, enabled: bool)
    ensures
        entry_models(final(out)@) == entry_models(old(out)@).push(
            EntryModel::Item(id@, label@, enabled),
        ),
{
    push_entry(out, MenuEntry::Item { id: id.to_owned(), label: label.to_owned(), enabled });
}

fn push_separator(out: &mut Vec<MenuEntry>)
    ensures
        entry_models(final(out)@) == entry_models(old(out)@).push(EntryModel::Separator),
{
    push_entry(out, MenuEntry::Separator);
}

fn push_submenu(out: &mut Vec<MenuEntry>, title: &str, choices: Vec<MenuChoice>)
    ensures
        entry_models(final(out)@) == entry_models(old(out)@).push(
            EntryModel::Submenu(title@, choice_models(choices@)),
        ),
{
    push_entry(out, MenuEntry::Submenu { title: title.to_owned(), choices });
}

/// The choices of a GPU as the menu shows them.
pub open spec fn shown_gpu_choices(choices: Seq<GpuChoiceModel>) -> Seq<ChoiceModel> {
    Seq::new(choices.len(), |i: int| choices[i].choice)
}

fn gpu_submenu(choices: &Vec<GpuMenuChoice>) -> (r: Vec<MenuChoice>)
    ensures
        choice_models(r@) == shown_gpu_choices(gpu_choice_models(choices@)),
{
    let mut out: Vec<MenuChoice> = Vec::new();
    let ghost all = shown_gpu_choices(gpu_choice_models(choices@));
    let mut i: usize = 0;
    while i < choices.len()
        invariant
            i <= choices.len(),
            all == shown_gpu_choices(gpu_choice_models(choices@)),
            choice_models(out@) == all.take(i as int),
        decreases choices.len() - i,
    {
        let choice = &choices[i];
        let ghost before = out@;
        let shown = MenuChoice {
            id: choice.id.clone(),
            label: choice.label.clone(),
            checked: choice.checked,
        };
        assert(shown.model() == all[i as int]);
        out.push(shown);
        assert(choice_models(out@) == choice_models(before).push(shown.model()));
        assert(all.take(i + 1) == all.take(i as int).push(all[i as int]));
        i += 1;
    }
    assert(all.take(all.len() as int) == all);
    out
}

pub open spec fn audio_status_text(enabled: bool) -> Seq<char> {
    if enabled {
        "audio on"@
    } else {
        "audio off"@
    }
}

pub fn audio_status(enabled: bool) -> (r: &'static str)
    ensures
        r@ == audio_status_text(enabled),
{
    if enabled {
        "audio on"
    } else {
        "audio off"
    }
}

/// What the first line of the menu says.
pub open spec fn status_text(config: AppConfig, mode: ActiveMode) -> Seq<char> {
    match mode {
        ActiveMode::Idle => "Status: stopped"@,
        ActiveMode::Sender => "Status: sending to "@ + (if text::same_ignoring_case(
            config.send.host@,
            "auto"@,
        ) {
            "auto"@
        } else {
            config.send.host@
        }) + ":"@ + text::dec(config.send.port as nat) + " ("@ + audio_status_text(
            config.send.audio_enabled,
        ) + ")"@,
        ActiveMode::Receiver => "Status: receiving on :"@ + text::dec(config.recv.port as nat)
            + " ("@ + audio_status_text(config.recv.audio_enabled) + ")"@,
    }
}

pub fn status_line(config: &AppConfig, mode: ActiveMode) -> (r: String)
    ensures
        r@ == status_text(*config, mode),
{
    match mode {
        ActiveMode::Idle => "Status: stopped".to_owned(),
        ActiveMode::Sender => {
            let mut out = "Status: sending to ".to_owned();
            if text::equal_ignoring_case(&config.send.host, "auto") {
                out.push_str("auto");
            } else {
                out.push_str(&config.send.host);
            }
            out.push_str(":");
            text::push_dec(&mut out, config.send.port as u64);
            out.push_str(" (");
            out.push_str(audio_status(config.send.audio_enabled));
            out.push_str(")");
            out
        },
        ActiveMode::Receiver => {
            let mut out = "Status: receiving on :".to_owned();
            text::push_dec(&mut out, config.recv.port as u64);
            out.push_str(" (");
            out.push_str(audio_status(config.recv.audio_enabled));
            out.push_str(")");
            out
        },
    }
}

pub open spec fn audio_label(config: AppConfig) -> Seq<char> {
    if config.send.audio_enabled && config.recv.audio_enabled {
        "Disable System Audio Transfer"@
    } else {
        "Enable System Audio Transfer"@
    }
}

pub open spec fn autostart_label(config: AppConfig) -> Seq<char> {
    if config.autostart {
        "Disable Autostart"@
    } else {
        "Enable Autostart"@
    }
}

/// The entries that begin and end a session, and the settings that every machine has.
pub open spec fn session_entries(config: AppConfig, mode: ActiveMode) -> Seq<EntryModel> {
    seq![
        EntryModel::Item("status"@, status_text(config, mode), false),
        EntryModel::Separator,
        EntryModel::Item("start-sender"@, "Start as Sender"@, mode != ActiveMode::Sender),
        EntryModel::Item("start-receiver"@, "Start as Receiver"@, mode != ActiveMode::Receiver),
        EntryModel::Item("stop"@, "Stop"@, mode != ActiveMode::Idle),
        EntryModel::Item("toggle-audio"@, audio_label(config), true),
        EntryModel::Separator,
        EntryModel::Submenu("Capture Frame Rate"@, rate_choices(config.send.fps)),
        EntryModel::Submenu("Scaling Filter"@, sampling_choices_of(config.recv.sampling)),
    ]
}

/// The GPU menus. A single-GPU machine has nothing to choose, so it gets none.
pub open spec fn gpu_entries(config: AppConfig, adapters: Seq<GpuAdapter>) -> Seq<EntryModel> {
    if adapters.len() > 1 {
        seq![
            EntryModel::Submenu(
                "Sender GPU"@,
                shown_gpu_choices(gpu_choices_of(GPU_SEND_PREFIX@, adapters, config.send.gpu@)),
            ),
            EntryModel::Submenu(
                "Receiver GPU"@,
                shown_gpu_choices(gpu_choices_of(GPU_RECV_PREFIX@, adapters, config.recv.gpu@)),
            ),
        ]
    } else {
        Seq::empty()
    }
}

/// The entries for the machine and the application.
pub open spec fn tool_entries(config: AppConfig) -> Seq<EntryModel> {
    seq![
        EntryModel::Separator,
        EntryModel::Item("autostart"@, autostart_label(config), true),
        EntryModel::Item("check-update"@, "Check for Updates"@, true),
        EntryModel::Item("run-diagnostics"@, "Run Diagnostics"@, true),
        EntryModel::Item("run-peer-diagnostics"@, "Run Peer Diagnostics"@, true),
        EntryModel::Separator,
        EntryModel::Item("install-vdd"@, "Install/Repair Virtual Display Driver"@, true),
        EntryModel::Item("list-vdd"@, "Show Virtual Display Status"@, true),
        EntryModel::Item("attach-vdd"@, "Attach Virtual Displays to Desktop"@, true),
        EntryModel::Item("enable-vdd"@, "Enable Virtual Display Driver"@, true),
        EntryModel::Item("disable-vdd"@, "Disable Virtual Display Driver"@, true),
        EntryModel::Item("remove-vdd"@, "Remove All Bundled Virtual Displays"@, true),
        EntryModel::Item("open-display-settings"@, "Open Display Settings"@, true),
        EntryModel::Item("open-vdd"@, "Open Virtual Display Driver Page"@, true),
        EntryModel::Item("open-config"@, "Open Config"@, true),
        EntryModel::Item("reload-config"@, "Reload Config"@, true),
        EntryModel::Separator,
        EntryModel::Item("quit"@, "Quit"@, true),
    ]
}

/// The whole menu, from the top down.
pub open spec fn menu_entries(
    config: AppConfig,
    mode: ActiveMode,
    adapters: Seq<GpuAdapter>,
) -> Seq<EntryModel> {
    session_entries(config, mode) + gpu_entries(config, adapters) + tool_entries(config)
}

fn push_session_entries(out: &mut Vec<MenuEntry>, config: &AppConfig, mode: ActiveMode)
    requires
        old(out)@.len() == 0,
    ensures
        entry_models(final(out)@) == session_entries(*config, mode),
{
    assert(entry_models(out@) == Seq::<EntryModel>::empty());
    push_item(out, "status", &status_line(config, mode), false);
    push_separator(out);
    push_item(out, "start-sender", "Start as Sender", mode != ActiveMode::Sender);
    push_item(out, "start-receiver", "Start as Receiver", mode != ActiveMode::Receiver);
    push_item(out, "stop", "Stop", mode != ActiveMode::Idle);
    let audio = if config.send.audio_enabled && config.recv.audio_enabled {
        "Disable System Audio Transfer"
    } else {
        "Enable System Audio Transfer"
    };
    push_item(out, "toggle-audio", audio, true);
    push_separator(out);
    push_submenu(out, "Capture Frame Rate", frame_rate_choices(config.send.fps));
    push_submenu(out, "Scaling Filter", sampling_choices(config.recv.sampling));
    assert(entry_models(out@) == session_entries(*config, mode));
}

fn push_tool_entries(out: &mut Vec<MenuEntry>, config: &AppConfig)
    ensures
        entry_models(final(out)@) == entry_models(old(out)@) + tool_entries(*config),
{
    let autostart = if config.autostart {
        "Disable Autostart"
    } else {
        "Enable Autostart"
    };
    push_separator(out);
    push_item(out, "autostart", autostart, true);
    push_item(out, "check-update", "Check for Updates", true);
    push_item(out, "run-diagnostics", "Run Diagnostics", true);
    push_item(out, "run-peer-diagnostics", "Run Peer Diagnostics", true);
    push_separator(out);
    push_item(out, "install-vdd", "Install/Repair Virtual Display Driver", true);
    push_item(out, "list-vdd", "Show Virtual Display Status", true);
    push_item(out, "attach-vdd", "Attach Virtual Displays to Desktop", true);
    push_item(out, "enable-vdd", "Enable Virtual Display Driver", true);
    push_item(out, "disable-vdd", "Disable Virtual Display Driver", true);
    push_item(out, "remove-vdd", "Remove All Bundled Virtual Displays", true);
    push_item(out, "open-display-settings", "Open Display Settings", true);
    push_item(out, "open-vdd", "Open Virtual Display Driver Page", true);
    push_item(out, "open-config", "Open Config", true);
    push_item(out, "reload-config", "Reload Config", true);
    push_separator(out);
    push_item(out, "quit", "Quit", true);
    assert(entry_models(out@) == entry_models(old(out)@) + tool_entries(*config));
}

/// The menu of a machine with these GPUs, as it shows a configuration and what is running.
pub fn menu_layout(config: &AppConfig, mode: ActiveMode, adapters: &Vec<GpuAdapter>) -> (r: Vec<
    MenuEntry,
>)
    ensures
        entry_models(r@) == menu_entries(*config, mode, adapters@),
{
    let mut out: Vec<MenuEntry> = Vec::new();
    push_session_entries(&mut out, config, mode);
    let ghost before = entry_models(out@);
    if adapters.len() > 1 {
        let send = gpu_choices(GPU_SEND_PREFIX, adapters, &config.send.gpu);
        push_submenu(&mut out, "Sender GPU", gpu_submenu(&send));
        let recv = gpu_choices(GPU_RECV_PREFIX, adapters, &config.recv.gpu);
        push_submenu(&mut out, "Receiver GPU", gpu_submenu(&recv));
    }
    assert(entry_models(out@) == before + gpu_entries(*config, adapters@));
    push_tool_entries(&mut out, config);
    out
}

/// Whether every way to click an entry asks for something.
pub open spec fn acts(entry: EntryModel) -> bool {
    match entry {
        EntryModel::Item(id, _, enabled) => enabled ==> action_of(id) != MenuAction::Nothing,
        EntryModel::Separator => true,
        EntryModel::Submenu(_, choices) => forall|i: int|
            0 <= i < choices.len() ==> action_of(#[trigger] choices[i].id) != MenuAction::Nothing,
    }
}

proof fn lemma_prefixed(prefix: Seq<char>, rest: Seq<char>)
    ensures
        text::starts_with(prefix + rest, prefix),
{
    assert((prefix + rest).subrange(0, prefix.len() as int) == prefix);
}

/// The menu has no dead entries: whatever can be clicked in it asks for something.
pub proof fn law_every_click_asks_for_something(
    config: AppConfig,
    mode: ActiveMode,
    adapters: Seq<GpuAdapter>,
)
    ensures
        forall|i: int|
            0 <= i < menu_entries(config, mode, adapters).len() ==> acts(
                #[trigger] menu_entries(config, mode, adapters)[i],
            ),
{
    let session = session_entries(config, mode);
    let gpus = gpu_entries(config, adapters);
    let tools = tool_entries(config);
    let all = menu_entries(config, mode, adapters);
    let rates = rate_choices(config.send.fps);
    assert forall|i: int| 0 <= i < rates.len() implies action_of(#[trigger] rates[i].id)
        != MenuAction::Nothing by {
        lemma_prefixed(FRAME_RATE_PREFIX@, text::dec(rates_of(config.send.fps)[i] as nat));
    }
    assert(acts(EntryModel::Submenu("Capture Frame Rate"@, rates)));
    let samplings = sampling_choices_of(config.recv.sampling);
    assert forall|i: int| 0 <= i < samplings.len() implies action_of(#[trigger] samplings[i].id)
        != MenuAction::Nothing by {
        lemma_prefixed(SAMPLING_PREFIX@, ConfigSampling::Auto.key_text());
        lemma_prefixed(SAMPLING_PREFIX@, ConfigSampling::Linear.key_text());
        lemma_prefixed(SAMPLING_PREFIX@, ConfigSampling::Point.key_text());
    }
    assert(acts(EntryModel::Submenu("Scaling Filter"@, samplings)));
    assert forall|i: int| 0 <= i < session.len() implies acts(#[trigger] session[i]) by {}
    if adapters.len() > 1 {
        lemma_gpu_choices_act(GPU_SEND_PREFIX@, adapters, config.send.gpu@);
        lemma_gpu_choices_act(GPU_RECV_PREFIX@, adapters, config.recv.gpu@);
        assert(acts(gpus[0]));
        assert(acts(gpus[1]));
    }
    assert forall|i: int| 0 <= i < tools.len() implies acts(#[trigger] tools[i]) by {}
    assert forall|i: int| 0 <= i < all.len() implies acts(#[trigger] all[i]) by {
        if i < session.len() {
            assert(all[i] == session[i]);
        } else if i < session.len() + gpus.len() {
            assert(all[i] == gpus[i - session.len()]);
        } else {
            assert(all[i] == tools[i - session.len() - gpus.len()]);
        }
    }
}

proof fn lemma_gpu_choices_act(
    prefix: Seq<char>,
    adapters: Seq<GpuAdapter>,
    configured: Seq<char>,
)
    requires
        prefix == GPU_SEND_PREFIX@ || prefix == GPU_RECV_PREFIX@,
    ensures
        ({
            let choices = shown_gpu_choices(gpu_choices_of(prefix, adapters, configured));
            forall|i: int|
                0 <= i < choices.len() ==> action_of(#[trigger] choices[i].id)
                    != MenuAction::Nothing
        }),
{
    let choices = shown_gpu_choices(gpu_choices_of(prefix, adapters, configured));
    assert forall|i: int| 0 <= i < choices.len() implies action_of(#[trigger] choices[i].id)
        != MenuAction::Nothing by {
        if i == 0 {
            lemma_prefixed(prefix, gpu::AUTO@);
        } else {
            lemma_prefixed(prefix, text::dec(adapters[i - 1].index as nat));
        }
    }
}

/// What the icon shows when the mouse rests on it.
pub fn app_tooltip(version: &str) -> (r: String)
    ensures
        r@ == "Screen Mirror v"@ + version@,
{
    let mut out = "Screen Mirror v".to_owned();
    out.push_str(version);
    out
}

/// Whether a pixel of the built-in icon is drawn: a screen in two halves with arrows between them,
/// on a stand.
pub open spec fn icon_drawn(x: int, y: int) -> bool {
    let border = 3 <= x <= 28 && 6 <= y <= 22 && (x <= 5 || x >= 26 || y <= 8 || y >= 20);
    let divider = 15 <= x <= 17 && 7 <= y <= 21;
    let left_arrow = 9 <= x <= 16 && 13 <= y <= 17 || 12 <= x <= 16 && 10 <= y <= 20 && x + y >= 26;
    let right_arrow = 16 <= x <= 23 && 13 <= y <= 17 || 16 <= x <= 20 && 10 <= y <= 20 && x + y
        <= 36;
    let stand = 10 <= x <= 21 && 26 <= y <= 27;
    border || divider || left_arrow || right_arrow || stand
}

/// A byte of a pixel of the icon: red, green, blue, and how opaque it is.
pub open spec fn icon_byte(drawn: bool, channel: int) -> u8 {
    if !drawn {
        0
    } else if channel == 0 {
        248
    } else if channel == 1 {
        181
    } else if channel == 2 {
        0
    } else {
        255
    }
}

/// The bytes of the built-in icon, 32 pixels wide and 32 high, from the top row down.
pub open spec fn icon_bytes() -> Seq<u8> {
    Seq::new(4096, |i: int| icon_byte(icon_drawn(i / 4 % 32, i / 128), i % 4))
}

fn icon_pixel(x: u32, y: u32) -> (r: bool)
    requires
        x < 32,
        y < 32,
    ensures
        r == icon_drawn(x as int, y as int),
{
    let border = 3 <= x && x <= 28 && 6 <= y && y <= 22 && (x <= 5 || x >= 26 || y <= 8 || y >= 20);
    let divider = 15 <= x && x <= 17 && 7 <= y && y <= 21;
    let left_arrow = 9 <= x && x <= 16 && 13 <= y && y <= 17 || 12 <= x && x <= 16 && 10 <= y && y
        <= 20 && x + y >= 26;
    let right_arrow = 16 <= x && x <= 23 && 13 <= y && y <= 17 || 16 <= x && x <= 20 && 10 <= y && y
        <= 20 && x + y <= 36;
    let stand = 10 <= x && x <= 21 && 26 <= y && y <= 27;
    border || divider || left_arrow || right_arrow || stand
}

/// The icon that is shown where no icon file can be read.
pub fn icon_rgba() -> (r: Vec<u8>)
    ensures
        r@ == icon_bytes(),
{
    let mut out: Vec<u8> = Vec::new();
    let mut i: u32 = 0;
    while i < 1024
        invariant
            i <= 1024,
            out@ == icon_bytes().take(4 * i),
        decreases 1024 - i,
    {
        let ghost before = out@;
        let drawn = icon_pixel(i % 32, i / 32);
        if drawn {
            out.push(248);
            out.push(181);
            out.push(0);
            out.push(255);
        } else {
            out.push(0);
            out.push(0);
            out.push(0);
            out.push(0);
        }
        assert forall|k: int| 4 * i <= k < 4 * (i + 1) implies #[trigger] out@[k]
            == icon_bytes()[k] by {
            assert(k / 4 == i);
            assert(k / 128 == i / 32);
        }
        assert(out@ == icon_bytes().take(4 * (i + 1))) by {
            assert(before == icon_bytes().take(4 * i));
            assert forall|k: int| 0 <= k < 4 * (i + 1) implies #[trigger] out@[k]
                == icon_bytes()[k] by {
                if k < 4 * i {
                    assert(out@[k] == before[k]);
                }
            }
        }
        i += 1;
    }
    assert(icon_bytes().take(4096) == icon_bytes());
    out
}

proof fn lemma_ids()
    ensures
        "start-sender"@.len() == 12 && "start-sender"@[0] == 's' && "start-sender"@[1] == 't',
        "start-receiver"@.len() == 14 && "start-receiver"@[0] == 's' && "start-receiver"@[1] == 't',
        "stop"@.len() == 4 && "stop"@[0] == 's' && "stop"@[1] == 't',
        "toggle-audio"@.len() == 12 && "toggle-audio"@[0] == 't' && "toggle-audio"@[1] == 'o',
        "autostart"@.len() == 9 && "autostart"@[0] == 'a' && "autostart"@[1] == 'u',
        "check-update"@.len() == 12 && "check-update"@[0] == 'c' && "check-update"@[1] == 'h',
        "run-diagnostics"@.len() == 15 && "run-diagnostics"@[0] == 'r' && "run-diagnostics"@[1] == 'u',
        "run-peer-diagnostics"@.len() == 20 && "run-peer-diagnostics"@[0] == 'r' && "run-peer-diagnostics"@[1] == 'u',
        "install-vdd"@.len() == 11 && "install-vdd"@[0] == 'i' && "install-vdd"@[1] == 'n',
        "list-vdd"@.len() == 8 && "list-vdd"@[0] == 'l' && "list-vdd"@[1] == 'i',
        "attach-vdd"@.len() == 10 && "attach-vdd"@[0] == 'a' && "attach-vdd"@[1] == 't',
        "enable-vdd"@.len() == 10 && "enable-vdd"@[0] == 'e' && "enable-vdd"@[1] == 'n',
        "disable-vdd"@.len() == 11 && "disable-vdd"@[0] == 'd' && "disable-vdd"@[1] == 'i',
        "remove-vdd"@.len() == 10 && "remove-vdd"@[0] == 'r' && "remove-vdd"@[1] == 'e',
        "open-display-settings"@.len() == 21 && "open-display-settings"@[0] == 'o' && "open-display-settings"@[1] == 'p',
        "open-vdd"@.len() == 8 && "open-vdd"@[0] == 'o' && "open-vdd"@[1] == 'p',
        "open-config"@.len() == 11 && "open-config"@[0] == 'o' && "open-config"@[1] == 'p',
        "reload-config"@.len() == 13 && "reload-config"@[0] == 'r' && "reload-config"@[1] == 'e',
        "quit"@.len() == 4 && "quit"@[0] == 'q' && "quit"@[1] == 'u',
        "gpu-send:"@.len() == 9 && "gpu-send:"@[0] == 'g' && "gpu-send:"@[1] == 'p',
        "gpu-recv:"@.len() == 9 && "gpu-recv:"@[0] == 'g' && "gpu-recv:"@[1] == 'p',
        "fps:"@.len() == 4 && "fps:"@[0] == 'f' && "fps:"@[1] == 'p',
        "sampling:"@.len() == 9 && "sampling:"@[0] == 's' && "sampling:"@[1] == 'a',
        "gpu-send:"@[4] == 's' && "gpu-recv:"@[4] == 'r',
{
    reveal_strlit("start-sender");
    reveal_strlit("start-receiver");
    reveal_strlit("stop");
    reveal_strlit("toggle-audio");
    reveal_strlit("autostart");
    reveal_strlit("check-update");
    reveal_strlit("run-diagnostics");
    reveal_strlit("run-peer-diagnostics");
    reveal_strlit("install-vdd");
    reveal_strlit("list-vdd");
    reveal_strlit("attach-vdd");
    reveal_strlit("enable-vdd");
    reveal_strlit("disable-vdd");
    reveal_strlit("remove-vdd");
    reveal_strlit("open-display-settings");
    reveal_strlit("open-vdd");
    reveal_strlit("open-config");
    reveal_strlit("reload-config");
    reveal_strlit("quit");
    reveal_strlit("gpu-send:");
    reveal_strlit("gpu-recv:");
    reveal_strlit("fps:");
    reveal_strlit("sampling:");
}

proof fn lemma_not_prefixed(id: Seq<char>, prefix: Seq<char>)
    requires
        id.len() > 1,
        prefix.len() > 1,
        id[0] != prefix[0] || id[1] != prefix[1],
    ensures
        !text::starts_with(id, prefix),
{
    if text::starts_with(id, prefix) {
        assert(id.subrange(0, prefix.len() as int)[0] == prefix[0]);
        assert(id.subrange(0, prefix.len() as int)[1] == prefix[1]);
    }
}

proof fn lemma_fixed_ids()
    ensures
        action_of("start-sender"@) == MenuAction::StartSender,
        action_of("start-receiver"@) == MenuAction::StartReceiver,
        action_of("stop"@) == MenuAction::Stop,
        action_of("toggle-audio"@) == MenuAction::ToggleAudio,
        action_of("autostart"@) == MenuAction::ToggleAutostart,
        action_of("check-update"@) == MenuAction::CheckUpdate,
        action_of("run-diagnostics"@) == MenuAction::RunDiagnostics,
        action_of("run-peer-diagnostics"@) == MenuAction::RunPeerDiagnostics,
        action_of("install-vdd"@) == MenuAction::InstallVdd,
        action_of("list-vdd"@) == MenuAction::ListVdd,
        action_of("attach-vdd"@) == MenuAction::AttachVdd,
        action_of("enable-vdd"@) == MenuAction::EnableVdd,
        action_of("disable-vdd"@) == MenuAction::DisableVdd,
        action_of("remove-vdd"@) == MenuAction::RemoveVdd,
        action_of("open-display-settings"@) == MenuAction::OpenDisplaySettings,
        action_of("open-vdd"@) == MenuAction::OpenVdd,
        action_of("open-config"@) == MenuAction::OpenConfig,
        action_of("reload-config"@) == MenuAction::ReloadConfig,
        action_of("quit"@) == MenuAction::Quit,
{
    lemma_ids();
    lemma_not_prefixed("autostart"@, "gpu-send:"@);
    lemma_not_prefixed("autostart"@, "gpu-recv:"@);
    lemma_not_prefixed("autostart"@, "fps:"@);
    lemma_not_prefixed("autostart"@, "sampling:"@);
    assert(action_of("autostart"@) == MenuAction::ToggleAutostart);
    lemma_not_prefixed("check-update"@, "gpu-send:"@);
    lemma_not_prefixed("check-update"@, "gpu-recv:"@);
    lemma_not_prefixed("check-update"@, "fps:"@);
    lemma_not_prefixed("check-update"@, "sampling:"@);
    assert(action_of("check-update"@) == MenuAction::CheckUpdate);
    lemma_not_prefixed("run-diagnostics"@, "gpu-send:"@);
    lemma_not_prefixed("run-diagnostics"@, "gpu-recv:"@);
    lemma_not_prefixed("run-diagnostics"@, "fps:"@);
    lemma_not_prefixed("run-diagnostics"@, "sampling:"@);
    assert(action_of("run-diagnostics"@) == MenuAction::RunDiagnostics);
    lemma_not_prefixed("run-peer-diagnostics"@, "gpu-send:"@);
    lemma_not_prefixed("run-peer-diagnostics"@, "gpu-recv:"@);
    lemma_not_prefixed("run-peer-diagnostics"@, "fps:"@);
    lemma_not_prefixed("run-peer-diagnostics"@, "sampling:"@);
    assert(action_of("run-peer-diagnostics"@) == MenuAction::RunPeerDiagnostics);
    lemma_not_prefixed("install-vdd"@, "gpu-send:"@);
    lemma_not_prefixed("install-vdd"@, "gpu-recv:"@);
    lemma_not_prefixed("install-vdd"@, "fps:"@);
    lemma_not_prefixed("install-vdd"@, "sampling:"@);
    assert(action_of("install-vdd"@) == MenuAction::InstallVdd);
    lemma_not_prefixed("list-vdd"@, "gpu-send:"@);
    lemma_not_prefixed("list-vdd"@, "gpu-recv:"@);
    lemma_not_prefixed("list-vdd"@, "fps:"@);
    lemma_not_prefixed("list-vdd"@, "sampling:"@);
    assert(action_of("list-vdd"@) == MenuAction::ListVdd);
    lemma_not_prefixed("attach-vdd"@, "gpu-send:"@);
    lemma_not_prefixed("attach-vdd"@, "gpu-recv:"@);
    lemma_not_prefixed("attach-vdd"@, "fps:"@);
    lemma_not_prefixed("attach-vdd"@, "sampling:"@);
    assert(action_of("attach-vdd"@) == MenuAction::AttachVdd);
    lemma_not_prefixed("enable-vdd"@, "gpu-send:"@);
    lemma_not_prefixed("enable-vdd"@, "gpu-recv:"@);
    lemma_not_prefixed("enable-vdd"@, "fps:"@);
    lemma_not_prefixed("enable-vdd"@, "sampling:"@);
    assert(action_of("enable-vdd"@) == MenuAction::EnableVdd);
    lemma_not_prefixed("disable-vdd"@, "gpu-send:"@);
    lemma_not_prefixed("disable-vdd"@, "gpu-recv:"@);
    lemma_not_prefixed("disable-vdd"@, "fps:"@);
    lemma_not_prefixed("disable-vdd"@, "sampling:"@);
    assert(action_of("disable-vdd"@) == MenuAction::DisableVdd);
    lemma_not_prefixed("remove-vdd"@, "gpu-send:"@);
    lemma_not_prefixed("remove-vdd"@, "gpu-recv:"@);
    lemma_not_prefixed("remove-vdd"@, "fps:"@);
    lemma_not_prefixed("remove-vdd"@, "sampling:"@);
    assert(action_of("remove-vdd"@) == MenuAction::RemoveVdd);
    lemma_not_prefixed("open-display-settings"@, "gpu-send:"@);
    lemma_not_prefixed("open-display-settings"@, "gpu-recv:"@);
    lemma_not_prefixed("open-display-settings"@, "fps:"@);
    lemma_not_prefixed("open-display-settings"@, "sampling:"@);
    assert(action_of("open-display-settings"@) == MenuAction::OpenDisplaySettings);
    lemma_not_prefixed("open-vdd"@, "gpu-send:"@);
    lemma_not_prefixed("open-vdd"@, "gpu-recv:"@);
    lemma_not_prefixed("open-vdd"@, "fps:"@);
    lemma_not_prefixed("open-vdd"@, "sampling:"@);
    assert(action_of("open-vdd"@) == MenuAction::OpenVdd);
    lemma_not_prefixed("open-config"@, "gpu-send:"@);
    lemma_not_prefixed("open-config"@, "gpu-recv:"@);
    lemma_not_prefixed("open-config"@, "fps:"@);
    lemma_not_prefixed("open-config"@, "sampling:"@);
    assert(action_of("open-config"@) == MenuAction::OpenConfig);
    lemma_not_prefixed("reload-config"@, "gpu-send:"@);
    lemma_not_prefixed("reload-config"@, "gpu-recv:"@);
    lemma_not_prefixed("reload-config"@, "fps:"@);
    lemma_not_prefixed("reload-config"@, "sampling:"@);
    assert(action_of("reload-config"@) == MenuAction::ReloadConfig);
    lemma_not_prefixed("quit"@, "gpu-send:"@);
    lemma_not_prefixed("quit"@, "gpu-recv:"@);
    lemma_not_prefixed("quit"@, "fps:"@);
    lemma_not_prefixed("quit"@, "sampling:"@);
    assert(action_of("quit"@) == MenuAction::Quit);
}

/// The entries of the menu do what their labels say, whatever is configured: each fixed one asks for
/// its own action, and those that begin or end a session can be clicked exactly where that changes
/// anything.
pub proof fn law_entries_do_what_they_say(
    config: AppConfig,
    mode: ActiveMode,
    adapters: Seq<GpuAdapter>,
)
    ensures
        ({
            let all = menu_entries(config, mode, adapters);
            let tools = all.len() - 18;
            &&& all.len() == if adapters.len() > 1 {
                29int
            } else {
                27
            }
            &&& does(all[2], "Start as Sender"@, MenuAction::StartSender) && all[2]->Item_2 == (mode
                != ActiveMode::Sender)
            &&& does(all[3], "Start as Receiver"@, MenuAction::StartReceiver) && all[3]->Item_2 == (
            mode != ActiveMode::Receiver)
            &&& does(all[4], "Stop"@, MenuAction::Stop) && all[4]->Item_2 == (mode
                != ActiveMode::Idle)
            &&& does(
                all[5],
                if config.send.audio_enabled && config.recv.audio_enabled {
                    "Disable System Audio Transfer"@
                } else {
                    "Enable System Audio Transfer"@
                },
                MenuAction::ToggleAudio,
            )
            &&& does(
                all[tools + 1],
                if config.autostart {
                    "Disable Autostart"@
                } else {
                    "Enable Autostart"@
                },
                MenuAction::ToggleAutostart,
            )
            &&& does(all[tools + 2], "Check for Updates"@, MenuAction::CheckUpdate)
            &&& does(all[tools + 3], "Run Diagnostics"@, MenuAction::RunDiagnostics)
            &&& does(all[tools + 4], "Run Peer Diagnostics"@, MenuAction::RunPeerDiagnostics)
            &&& does(
                all[tools + 6],
                "Install/Repair Virtual Display Driver"@,
                MenuAction::InstallVdd,
            )
            &&& does(all[tools + 7], "Show Virtual Display Status"@, MenuAction::ListVdd)
            &&& does(all[tools + 8], "Attach Virtual Displays to Desktop"@, MenuAction::AttachVdd)
            &&& does(all[tools + 9], "Enable Virtual Display Driver"@, MenuAction::EnableVdd)
            &&& does(all[tools + 10], "Disable Virtual Display Driver"@, MenuAction::DisableVdd)
            &&& does(
                all[tools + 11],
                "Remove All Bundled Virtual Displays"@,
                MenuAction::RemoveVdd,
            )
            &&& does(all[tools + 12], "Open Display Settings"@, MenuAction::OpenDisplaySettings)
            &&& does(all[tools + 13], "Open Virtual Display Driver Page"@, MenuAction::OpenVdd)
            &&& does(all[tools + 14], "Open Config"@, MenuAction::OpenConfig)
            &&& does(all[tools + 15], "Reload Config"@, MenuAction::ReloadConfig)
            &&& does(all[tools + 17], "Quit"@, MenuAction::Quit)
        }),
{
    lemma_fixed_ids();
    let session = session_entries(config, mode);
    let gpus = gpu_entries(config, adapters);
    let entries = tool_entries(config);
    let all = menu_entries(config, mode, adapters);
    assert forall|i: int| 0 <= i < 9 implies #[trigger] session[i] == all[i] by {}
    assert forall|i: int| 0 <= i < 18 implies #[trigger] entries[i] == all[i + all.len() - 18] by {}
    assert(session[2] == all[2] && session[3] == all[3] && session[4] == all[4] && session[5]
        == all[5]);
    let tools = all.len() - 18;
    assert(entries[1] == all[tools + 1] && entries[2] == all[tools + 2] && entries[3] == all[tools
        + 3] && entries[4] == all[tools + 4]);
    assert(entries[6] == all[tools + 6] && entries[7] == all[tools + 7] && entries[8] == all[tools
        + 8] && entries[9] == all[tools + 9] && entries[10] == all[tools + 10] && entries[11]
        == all[tools + 11]);
    assert(entries[12] == all[tools + 12] && entries[13] == all[tools + 13] && entries[14]
        == all[tools + 14] && entries[15] == all[tools + 15] && entries[17] == all[tools + 17]);
}

/// Whether an entry has a label and asks for an action.
pub open spec fn does(entry: EntryModel, label: Seq<char>, action: MenuAction) -> bool {
    entry matches EntryModel::Item(id, shown, _) && shown == label && action_of(id) == action
}

/// The GPU of each side is chosen in its own menu, whichever of the choices is clicked.
pub proof fn law_gpu_menus_are_told_apart(choice: Seq<char>)
    ensures
        action_of(GPU_SEND_PREFIX@ + choice) == MenuAction::SelectGpu(GpuSide::Sender),
        action_of(GPU_RECV_PREFIX@ + choice) == MenuAction::SelectGpu(GpuSide::Receiver),
        action_of(SAMPLING_PREFIX@ + choice) == MenuAction::SelectSampling,
        action_of(FRAME_RATE_PREFIX@ + choice) == MenuAction::SelectFrameRate,
{
    lemma_ids();
    lemma_prefixed(GPU_SEND_PREFIX@, choice);
    lemma_prefixed(GPU_RECV_PREFIX@, choice);
    lemma_prefixed(SAMPLING_PREFIX@, choice);
    lemma_prefixed(FRAME_RATE_PREFIX@, choice);
    let recv = GPU_RECV_PREFIX@ + choice;
    assert(recv[4] == 'r');
    if text::starts_with(recv, GPU_SEND_PREFIX@) {
        assert(recv.subrange(0, 9)[4] == GPU_SEND_PREFIX@[4]);
    }
    lemma_other_prefixes(GPU_SEND_PREFIX@ + choice);
    lemma_other_prefixes(recv);
    lemma_other_prefixes(SAMPLING_PREFIX@ + choice);
    lemma_other_prefixes(FRAME_RATE_PREFIX@ + choice);
}

proof fn lemma_other_prefixes(id: Seq<char>)
    requires
        id.len() > 1,
    ensures
        !(id[0] == 'g' && id[1] == 'p') ==> !text::starts_with(id, GPU_SEND_PREFIX@)
            && !text::starts_with(id, GPU_RECV_PREFIX@),
        !(id[0] == 'f' && id[1] == 'p') ==> !text::starts_with(id, FRAME_RATE_PREFIX@),
        !(id[0] == 's' && id[1] == 'a') ==> !text::starts_with(id, SAMPLING_PREFIX@),
{
    lemma_ids();
    if !(id[0] == 'g' && id[1] == 'p') {
        lemma_not_prefixed(id, GPU_SEND_PREFIX@);
        lemma_not_prefixed(id, GPU_RECV_PREFIX@);
    }
    if !(id[0] == 'f' && id[1] == 'p') {
        lemma_not_prefixed(id, FRAME_RATE_PREFIX@);
    }
    if !(id[0] == 's' && id[1] == 'a') {
        lemma_not_prefixed(id, SAMPLING_PREFIX@);
    }
}

/// A click on a GPU selects that GPU: by its name, or by its number where its name is shared.
pub proof fn law_gpu_click_selects_that_gpu(adapters: Seq<GpuAdapter>, i: int)
    requires
        0 <= i < adapters.len(),
        text::trim(adapters[i].description@) == adapters[i].description@,
        !gpu::auto_selection(adapters[i].description@),
        text::parse_unsigned(adapters[i].description@, u32::MAX as nat) is None,
    ensures
        ({
            let selection = selection_of(adapters, adapters[i]);
            gpu::selected(selection, adapters) matches Some(chosen) && {
                &&& ambiguous(adapters, adapters[i]) ==> chosen.index == adapters[i].index
                &&& !ambiguous(adapters, adapters[i]) ==> text::lower(chosen.description@)
                    == text::lower(adapters[i].description@)
            }
        }),
{
    if ambiguous(adapters, adapters[i]) {
        gpu::law_a_number_selects_by_index(adapters, i);
    } else {
        gpu::law_a_name_selects_by_name(adapters[i].description@, adapters, i);
    }
}

/// A name is shared exactly where another adapter has it too, in whatever case.
pub proof fn law_shared_names_are_noticed(adapters: Seq<GpuAdapter>, i: int, j: int)
    requires
        0 <= i < adapters.len(),
        0 <= j < adapters.len(),
        i != j,
        text::lower(adapters[i].description@) == text::lower(adapters[j].description@),
    ensures
        ambiguous(adapters, adapters[i]),
        selection_of(adapters, adapters[i]) == text::dec(adapters[i].index as nat),
{
    let p = |other: GpuAdapter|
        text::same_ignoring_case(other.description@, adapters[i].description@);
    assert(p(adapters[i]) && p(adapters[j]));
    lemma_two_kept(adapters, p, i, j);
}

proof fn lemma_two_kept(s: Seq<GpuAdapter>, p: spec_fn(GpuAdapter) -> bool, i: int, j: int)
    requires
        0 <= i < s.len(),
        0 <= j < s.len(),
        p(s[i]),
        p(s[j]),
    ensures
        search::kept(s, p).len() >= 1,
        i != j ==> search::kept(s, p).len() >= 2,
    decreases s.len(),
{
    let rest = s.drop_last();
    let low = if i < j {
        i
    } else {
        j
    };
    let high = if i < j {
        j
    } else {
        i
    };
    if high < rest.len() {
        lemma_two_kept(rest, p, i, j);
    } else if low < rest.len() {
        lemma_two_kept(rest, p, low, low);
    }
}

/// The status names where the session goes: the port of the running side, and to whom a sender
/// sends.
pub proof fn law_status_names_the_session(config: AppConfig)
    ensures
        reading::tells(
            status_text(config, ActiveMode::Receiver),
            " on :"@,
            config.recv.port as nat,
        ),
        text::contains(
            status_text(config, ActiveMode::Receiver),
            if config.recv.audio_enabled {
                "(audio on)"@
            } else {
                "(audio off)"@
            },
        ),
        !text::same_ignoring_case(config.send.host@, "auto"@) ==> text::contains(
            status_text(config, ActiveMode::Sender),
            " to "@ + config.send.host@ + ":"@ + text::dec(config.send.port as nat) + " ("@,
        ),
        text::contains(
            status_text(config, ActiveMode::Sender),
            if config.send.audio_enabled {
                "(audio on)"@
            } else {
                "(audio off)"@
            },
        ),
{
    lemma_receiving_status(config);
    lemma_sending_status(config);
}

proof fn lemma_receiving_status(config: AppConfig)
    ensures
        reading::tells(
            status_text(config, ActiveMode::Receiver),
            " on :"@,
            config.recv.port as nat,
        ),
        text::contains(
            status_text(config, ActiveMode::Receiver),
            if config.recv.audio_enabled {
                "(audio on)"@
            } else {
                "(audio off)"@
            },
        ),
{
    lemma_status_words();
    let port = text::dec(config.recv.port as nat);
    let parts = Seq::<Seq<char>>::empty().push("Status: receiving on :"@).push(port).push(
        " "@,
    ).push(
        if config.recv.audio_enabled {
            "(audio on)"@
        } else {
            "(audio off)"@
        },
    );
    reading::lemma_cat_push();
    let heard = audio_status_text(config.recv.audio_enabled);
    let whole = status_text(config, ActiveMode::Receiver);
    assert(whole == "Status: receiving on :"@ + port + (" ("@ + heard + ")"@));
    assert(reading::cat(parts) == "Status: receiving on :"@ + port + (" "@ + parts[3]));
    reading::lemma_part_tells(parts, 1, " on :"@, config.recv.port as nat);
    lemma_stands_in(parts[3]);
    reading::lemma_part_contains(parts, 3, parts[3]);
}

proof fn lemma_stands_in(s: Seq<char>)
    ensures
        text::contains(s, s),
{
    assert(s.subrange(0, s.len() as int) == s);
    assert(text::occurs_at(s, s, 0));
}

proof fn lemma_sending_status(config: AppConfig)
    ensures
        !text::same_ignoring_case(config.send.host@, "auto"@) ==> text::contains(
            status_text(config, ActiveMode::Sender),
            " to "@ + config.send.host@ + ":"@ + text::dec(config.send.port as nat) + " ("@,
        ),
        text::contains(
            status_text(config, ActiveMode::Sender),
            if config.send.audio_enabled {
                "(audio on)"@
            } else {
                "(audio off)"@
            },
        ),
{
    lemma_status_words();
    let host = if text::same_ignoring_case(config.send.host@, "auto"@) {
        "auto"@
    } else {
        config.send.host@
    };
    let port = text::dec(config.send.port as nat);
    let sent = audio_status_text(config.send.audio_enabled);
    lemma_goal_is_named(host, port, sent);
    let before = "Status: sending to "@ + host + ":"@ + port;
    if config.send.audio_enabled {
        lemma_regrouped(before, " ("@, sent, ")"@, " "@, "(audio on)"@);
    } else {
        lemma_regrouped(before, " ("@, sent, ")"@, " "@, "(audio off)"@);
    }
}

proof fn lemma_goal_is_named(host: Seq<char>, port: Seq<char>, sent: Seq<char>)
    ensures
        text::contains(
            "Status: sending to "@ + host + ":"@ + port + " ("@ + sent + ")"@,
            " to "@ + host + ":"@ + port + " ("@,
        ),
{
    lemma_status_words();
    let goal = " to "@ + host + ":"@ + port + " ("@;
    let rest = sent + ")"@;
    reading::lemma_contains("Status: sending"@, goal, rest);
    let start = "Status: sending"@;
    let (to, colon, bracket) = (" to "@, ":"@, " ("@);
    reading::lemma_grouping(start + goal, sent, ")"@);
    reading::lemma_grouping(start, to + host + colon + port, bracket);
    reading::lemma_grouping(start, to + host + colon, port);
    reading::lemma_grouping(start, to + host, colon);
    reading::lemma_grouping(start, to, host);
}

proof fn lemma_regrouped(
    before: Seq<char>,
    open: Seq<char>,
    inside: Seq<char>,
    close: Seq<char>,
    space: Seq<char>,
    marked: Seq<char>,
)
    requires
        open + inside + close == space + marked,
    ensures
        text::contains(before + open + inside + close, marked),
{
    let none = Seq::<char>::empty();
    reading::lemma_contains(before + space, marked, none);
    reading::lemma_grouping(before + open, inside, close);
    reading::lemma_grouping(before, open, inside + close);
    reading::lemma_grouping(open, inside, close);
    reading::lemma_grouping(before, space, marked);
    reading::lemma_grouping(before + space + marked, none, none);
}

proof fn lemma_status_words()
    ensures
        "Status: sending to "@ == "Status: sending"@ + " to "@,
        text::ends_with("Status: receiving on :"@, " on :"@),
        reading::ends_numbers(" "@) && " "@.len() > 0,
        " ("@ + "audio on"@ + ")"@ == " "@ + "(audio on)"@,
        " ("@ + "audio off"@ + ")"@ == " "@ + "(audio off)"@,
{
    reveal_strlit("Status: receiving on :");
    reveal_strlit(" on :");
    reveal_strlit("Status: sending to ");
    reveal_strlit("Status: sending");
    reveal_strlit(" to ");
    reveal_strlit(" ");
    reveal_strlit(" (");
    reveal_strlit(")");
    reveal_strlit("audio on");
    reveal_strlit("audio off");
    reveal_strlit("(audio on)");
    reveal_strlit("(audio off)");
    assert("Status: sending to "@ =~= "Status: sending"@ + " to "@);
    let s = "Status: receiving on :"@;
    assert(s.subrange(s.len() - 5, s.len() as int) =~= " on :"@);
    assert(" ("@ + "audio on"@ + ")"@ =~= " "@ + "(audio on)"@);
    assert(" ("@ + "audio off"@ + ")"@ =~= " "@ + "(audio off)"@);
}

/// A GPU is shown by its name, and by its number too where the name is shared.
pub proof fn law_shared_names_show_their_number(adapters: Seq<GpuAdapter>, adapter: GpuAdapter)
    ensures
        text::starts_with(label_of(adapters, adapter), adapter.description@),
        ambiguous(adapters, adapter) ==> reading::tells(
            label_of(adapters, adapter),
            " (GPU "@,
            adapter.index as nat,
        ),
        !ambiguous(adapters, adapter) ==> label_of(adapters, adapter) == adapter.description@,
{
    let label = label_of(adapters, adapter);
    let name = adapter.description@;
    reveal_strlit(")");
    reading::lemma_tells(name, " (GPU "@, adapter.index as nat, ")"@);
    assert(label.subrange(0, name.len() as int) == name);
}

} // verus!
