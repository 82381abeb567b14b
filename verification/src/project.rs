//! Projects: the one to begin with, and which ones are valid.

use crate::error::{
    failure, ContextData, ContextValue, ErrorCode, ErrorData, ToolboxError, ToolboxResult,
};
use crate::ident::{variant_bits, version_bits, Uuid};
use crate::idmap::IdMap;
use crate::model::{
    ChannelSource, ChannelSpec, CommandProfile, DecoderSpec, FieldSpec, FlowControl, FramerRule,
    FramerSpec, Parity, PidProfile, SerialConfig, SourceProfile, ToolboxProject, TransformSpec,
    ViewSpec, APP_VERSION, PIPELINE_SEMANTIC_VERSION, PROJECT_SCHEMA_VERSION,
};
use std::sync::Arc;
use vstd::prelude::*;

verus! {

/// The identifiers of fields.
pub open spec fn field_ids<V>(fields: Seq<FieldSpec<V>>) -> Seq<Uuid> {
    fields.map_values(|field: FieldSpec<V>| field.id)
}

/// The identifier of a channel, followed by those of its transforms.
pub open spec fn channel_ids<V>(channel: ChannelSpec<V>) -> Seq<Uuid> {
    seq![channel.id] + channel.transforms@.map_values(
        |transform: TransformSpec<V>| transform.id_spec(),
    )
}

/// The identifiers of channels and their transforms, in order.
pub open spec fn all_channel_ids<V>(channels: Seq<ChannelSpec<V>>) -> Seq<Uuid>
    decreases channels.len(),
{
    if channels.len() == 0 {
        Seq::empty()
    } else {
        all_channel_ids(channels.drop_last()) + channel_ids(channels.last())
    }
}

/// All identifiers of a project, in order.
pub open spec fn project_ids<V>(project: ToolboxProject<V>) -> Seq<Uuid> {
    let head = seq![
        project.id,
        project.source.id,
        project.source.serial.id,
        project.framer.id_spec(),
    ];
    let checksum = match project.checksum {
        Some(spec) => seq![spec.id],
        None => Seq::empty(),
    };
    let fields = match *project.decoder {
        DecoderSpec::Binary { fields, .. } => field_ids(fields@),
        _ => Seq::empty(),
    };
    head + checksum + seq![project.decoder.id_spec()] + fields + all_channel_ids(project.channels@)
        + project.commands@.map_values(|command: CommandProfile| command.id)
        + project.pid_profiles@.map_values(|profile: PidProfile<V>| profile.id)
        + project.views@.map_values(|view: ViewSpec| view.id)
}

/// What is said of an identifier that occurs twice.
pub open spec fn duplicate_error(id: Uuid) -> ErrorData {
    failure(ErrorCode::ProjectSchemaInvalid, "project.validate"@, "duplicate_stable_id"@).noting(
        "id"@,
        ContextData::Id(id),
    )
}

/// The place of the first identifier that occurred before.
pub open spec fn first_repeat(ids: Seq<Uuid>, i: int) -> bool {
    &&& 0 <= i < ids.len()
    &&& ids.take(i).no_duplicates()
    &&& ids.take(i).contains(ids[i])
}

/// `error` says what is wrong with a project.
pub open spec fn project_defect<V>(project: ToolboxProject<V>, error: ErrorData) -> bool {
    if project.project_schema_version@ != PROJECT_SCHEMA_VERSION@ {
        error == failure(
            ErrorCode::ProjectSchemaInvalid,
            "project.validate"@,
            "project_schema_unsupported"@,
        ).noting("version"@, ContextData::Text(project.project_schema_version@))
    } else if project.pipeline_semantic_version@ != PIPELINE_SEMANTIC_VERSION@ {
        error == failure(
            ErrorCode::PipelineVersionUnsupported,
            "project.validate"@,
            "pipeline_version_unsupported"@,
        ).noting("version"@, ContextData::Text(project.pipeline_semantic_version@))
    } else {
        exists|i: int| #[trigger]
            first_repeat(project_ids(project), i) && error == duplicate_error(
                project_ids(project)[i],
            )
    }
}

/// Whether a project can be used: its versions are known, and no identifier occurs
/// twice.
pub open spec fn valid_project<V>(project: ToolboxProject<V>) -> bool {
    &&& project.project_schema_version@ == PROJECT_SCHEMA_VERSION@
    &&& project.pipeline_semantic_version@ == PIPELINE_SEMANTIC_VERSION@
    &&& project_ids(project).no_duplicates()
}

/// Collects all identifiers of a project, in order.
fn collect_ids<V>(project: &ToolboxProject<V>) -> (ids: Vec<Uuid>)
    ensures
        ids@ == project_ids(*project),
{
    let mut ids: Vec<Uuid> = Vec::new();
    ids.push(project.id);
    ids.push(project.source.id);
    ids.push(project.source.serial.id);
    ids.push(project.framer.id());
    let ghost mut built = seq![
        project.id,
        project.source.id,
        project.source.serial.id,
        project.framer.id_spec(),
    ];
    assert(ids@ =~= built);
    let ghost checksum: Seq<Uuid> = match project.checksum {
        Some(spec) => seq![spec.id],
        None => Seq::empty(),
    };
    if let Some(spec) = &project.checksum {
        ids.push(spec.id);
    }
    proof {
        built = built + checksum;
    }
    assert(ids@ =~= built);
    ids.push(project.decoder.id());
    proof {
        built = built + seq![project.decoder.id_spec()];
    }
    assert(ids@ =~= built);
    if let DecoderSpec::Binary { fields, .. } = &*project.decoder {
        let mut i: usize = 0;
        assert(ids@ =~= built + field_ids(fields@.take(0)));
        while i < fields.len()
            invariant
                i <= fields@.len(),
                ids@ == built + field_ids(fields@.take(i as int)),
            decreases fields@.len() - i,
        {
            ids.push(fields[i].id);
            assert(ids@ =~= built + field_ids(fields@.take(i + 1)));
            i += 1;
        }
        assert(fields@.take(i as int) =~= fields@);
        proof {
            built = built + field_ids(fields@);
        }
    } else {
        proof {
            built = built + Seq::<Uuid>::empty();
        }
    }
    assert(ids@ =~= built);
    let mut k: usize = 0;
    assert(project.channels@.take(0) =~= Seq::<ChannelSpec<V>>::empty());
    assert(ids@ =~= built + all_channel_ids(project.channels@.take(0)));
    while k < project.channels.len()
        invariant
            k <= project.channels@.len(),
            ids@ == built + all_channel_ids(project.channels@.take(k as int)),
        decreases project.channels@.len() - k,
    {
        let channel = &project.channels[k];
        let ghost before = all_channel_ids(project.channels@.take(k as int));
        let ghost longer = project.channels@.take(k + 1);
        assert(longer.drop_last() =~= project.channels@.take(k as int));
        assert(longer.last() == *channel);
        ids.push(channel.id);
        let mut j: usize = 0;
        assert(ids@ =~= built + before + (seq![channel.id] + transform_ids(
            channel.transforms@.take(0),
        )));
        while j < channel.transforms.len()
            invariant
                j <= channel.transforms@.len(),
                ids@ == built + before + (seq![channel.id] + transform_ids(
                    channel.transforms@.take(j as int),
                )),
            decreases channel.transforms@.len() - j,
        {
            ids.push(channel.transforms[j].id());
            assert(ids@ =~= built + before + (seq![channel.id] + transform_ids(
                channel.transforms@.take(j + 1),
            )));
            j += 1;
        }
        assert(channel.transforms@.take(j as int) =~= channel.transforms@);
        assert(ids@ =~= built + all_channel_ids(longer));
        k += 1;
    }
    assert(project.channels@.take(k as int) =~= project.channels@);
    proof {
        built = built + all_channel_ids(project.channels@);
    }
    let mut c: usize = 0;
    let ghost command_id = |command: CommandProfile| command.id;
    assert(ids@ =~= built + project.commands@.take(0).map_values(command_id));
    while c < project.commands.len()
        invariant
            c <= project.commands@.len(),
            command_id == (|command: CommandProfile| command.id),
            ids@ == built + project.commands@.take(c as int).map_values(command_id),
        decreases project.commands@.len() - c,
    {
        ids.push(project.commands[c].id);
        assert(ids@ =~= built + project.commands@.take(c + 1).map_values(command_id));
        c += 1;
    }
    assert(project.commands@.take(c as int) =~= project.commands@);
    proof {
        built = built + project.commands@.map_values(command_id);
    }
    let mut p: usize = 0;
    let ghost profile_id = |profile: PidProfile<V>| profile.id;
    assert(ids@ =~= built + project.pid_profiles@.take(0).map_values(profile_id));
    while p < project.pid_profiles.len()
        invariant
            p <= project.pid_profiles@.len(),
            profile_id == (|profile: PidProfile<V>| profile.id),
            ids@ == built + project.pid_profiles@.take(p as int).map_values(profile_id),
        decreases project.pid_profiles@.len() - p,
    {
        ids.push(project.pid_profiles[p].id);
        assert(ids@ =~= built + project.pid_profiles@.take(p + 1).map_values(profile_id));
        p += 1;
    }
    assert(project.pid_profiles@.take(p as int) =~= project.pid_profiles@);
    proof {
        built = built + project.pid_profiles@.map_values(profile_id);
    }
    let mut v: usize = 0;
    let ghost view_id = |view: ViewSpec| view.id;
    assert(ids@ =~= built + project.views@.take(0).map_values(view_id));
    while v < project.views.len()
        invariant
            v <= project.views@.len(),
            view_id == (|view: ViewSpec| view.id),
            ids@ == built + project.views@.take(v as int).map_values(view_id),
        decreases project.views@.len() - v,
    {
        ids.push(project.views[v].id);
        assert(ids@ =~= built + project.views@.take(v + 1).map_values(view_id));
        v += 1;
    }
    assert(project.views@.take(v as int) =~= project.views@);
    assert(ids@ =~= project_ids(*project));
    ids
}

spec fn transform_ids<V>(transforms: Seq<TransformSpec<V>>) -> Seq<Uuid> {
    transforms.map_values(|transform: TransformSpec<V>| transform.id_spec())
}

/// Checks a project.
pub fn validate_project<V>(project: &ToolboxProject<V>) -> (result: ToolboxResult<()>)
    ensures
        match result {
            Ok(()) => valid_project(*project),
            Err(error) => !valid_project(*project) && project_defect(*project, error@),
        },
{
    if project.project_schema_version != PROJECT_SCHEMA_VERSION.to_owned() {
        return Err(
            ToolboxError::new(
                ErrorCode::ProjectSchemaInvalid,
                "project.validate",
                "project_schema_unsupported",
            ).context("version", ContextValue::Text(project.project_schema_version.clone())),
        );
    }
    if project.pipeline_semantic_version != PIPELINE_SEMANTIC_VERSION.to_owned() {
        return Err(
            ToolboxError::new(
                ErrorCode::PipelineVersionUnsupported,
                "project.validate",
                "pipeline_version_unsupported",
            ).context("version", ContextValue::Text(project.pipeline_semantic_version.clone())),
        );
    }
    let ids = collect_ids(project);
    let ghost all = project_ids(*project);
    let mut seen: IdMap<()> = IdMap::new();
    let mut i: usize = 0;
    while i < ids.len()
        invariant
            i <= ids@.len(),
            ids@ == all,
            all == project_ids(*project),
            project.project_schema_version@ == PROJECT_SCHEMA_VERSION@,
            project.pipeline_semantic_version@ == PIPELINE_SEMANTIC_VERSION@,
            seen.wf(),
            all.take(i as int).no_duplicates(),
            forall|id: Uuid| #[trigger]
                seen@.dom().contains(id) <==> all.take(i as int).contains(id),
        decreases ids@.len() - i,
    {
        let id = ids[i];
        if seen.contains(id) {
            proof {
                assert(first_repeat(all, i as int));
                let earlier = choose|j: int|
                    0 <= j < all.take(i as int).len() && all.take(i as int)[j] == id;
                assert(all[earlier] == all[i as int]);
            }
            return Err(
                ToolboxError::new(
                    ErrorCode::ProjectSchemaInvalid,
                    "project.validate",
                    "duplicate_stable_id",
                ).context("id", ContextValue::Id(id)),
            );
        }
        seen.insert(id, ());
        proof {
            let shorter = all.take(i as int);
            let longer = all.take(i + 1);
            assert(longer =~= shorter.push(id));
            assert(longer.no_duplicates());
            assert forall|other: Uuid| #[trigger]
                seen@.dom().contains(other) <==> longer.contains(other) by {
                if longer.contains(other) && other != id {
                    let j = choose|j: int| 0 <= j < longer.len() && longer[j] == other;
                    assert(shorter[j] == other);
                }
                if shorter.contains(other) {
                    let j = choose|j: int| 0 <= j < shorter.len() && shorter[j] == other;
                    assert(longer[j] == other);
                }
                assert(longer[i as int] == id);
            }
        }
        i += 1;
    }
    assert(all.take(i as int) =~= all);
    Ok(())
}

/// Whether two line configurations carry data alike; only the port may differ, and
/// the time-out.
pub open spec fn same_line_semantics(left: SerialConfig, right: SerialConfig) -> bool {
    &&& left.baud_rate == right.baud_rate
    &&& left.data_bits == right.data_bits
    &&& left.stop_bits == right.stop_bits
    &&& left.parity == right.parity
    &&& left.flow_control == right.flow_control
}

/// Whether two line configurations carry data alike.
pub fn serial_semantics_equal(left: &SerialConfig, right: &SerialConfig) -> (equal: bool)
    ensures
        equal == same_line_semantics(*left, *right),
{
    left.baud_rate == right.baud_rate && left.data_bits == right.data_bits && left.stop_bits
        == right.stop_bits && left.parity == right.parity && left.flow_control
        == right.flow_control
}

/// Whether an identifier is time-ordered, as all fresh ones are.
pub open spec fn fresh_id(id: Uuid) -> bool {
    version_bits(id.value) == 7 && variant_bits(id.value) == 2
}

/// A channel that reads a cell of a line.
pub open spec fn reads_cell<V>(
    channel: ChannelSpec<V>,
    name: Seq<char>,
    color: Seq<char>,
    index: usize,
) -> bool {
    &&& channel.name@ == name
    &&& channel.unit@ == "%"@
    &&& channel.color@ == color
    &&& channel.source == (ChannelSource::CsvIndex { index })
}

/// The project that a new installation begins with: lines of three cells, a setpoint,
/// a smoothed measurement and an output, and one loop that is tuned.
pub open spec fn is_demo<V>(project: ToolboxProject<V>, alpha: V, low: V, high: V) -> bool {
    &&& project.name@ == "PID Loop Demo"@
    &&& project.project_schema_version@ == PROJECT_SCHEMA_VERSION@
    &&& project.pipeline_semantic_version@ == PIPELINE_SEMANTIC_VERSION@
    &&& project.app_version@ == APP_VERSION@
    &&& project.source.name@ == "Primary device"@
    &&& project.source.serial.port_name@ == Seq::<char>::empty()
    &&& project.source.serial.baud_rate == 115_200
    &&& project.source.serial.data_bits == 8
    &&& project.source.serial.stop_bits == 1
    &&& project.source.serial.parity == Parity::Off
    &&& project.source.serial.flow_control == FlowControl::Off
    &&& project.source.serial.timeout_ms == 20
    &&& project.framer@ == (FramerRule::EndDelimiter { delimiter: seq![10u8], max: 65_536 })
    &&& project.checksum is None
    &&& *project.decoder matches DecoderSpec::Csv { delimiter, .. } && delimiter == ','
    &&& project.channels@.len() == 3
    &&& reads_cell(project.channels@[0], "Setpoint"@, "#ffb454"@, 0)
    &&& reads_cell(project.channels@[1], "Measured"@, "#4de3c1"@, 1)
    &&& reads_cell(project.channels@[2], "Output"@, "#7aa2ff"@, 2)
    &&& project.channels@[0].transforms@.len() == 0
    &&& project.channels@[1].transforms@.len() == 1
    &&& project.channels@[1].transforms@[0] matches TransformSpec::Ema { alpha: own, .. } && own
        == alpha
    &&& project.channels@[2].transforms@.len() == 0
    &&& project.commands@.len() == 1
    &&& project.commands@[0].name@ == "Set PID"@
    &&& project.commands@[0].text_template@ == "PID,{kp},{ki},{kd}\r\n"@
    &&& project.commands@[0].min_gap_ms == 20
    &&& project.pid_profiles@.len() == 1
    &&& project.pid_profiles@[0] == (PidProfile {
        id: project.pid_profiles@[0].id,
        name: project.pid_profiles@[0].name,
        setpoint_channel_id: project.channels@[0].id,
        measured_channel_id: project.channels@[1].id,
        output_channel_id: project.channels@[2].id,
        command_profile_id: project.commands@[0].id,
        kp_min: low,
        kp_max: high,
        ki_min: low,
        ki_max: high,
        kd_min: low,
        kd_max: high,
    })
    &&& project.pid_profiles@[0].name@ == "Main loop"@
    &&& project.views@.len() == 4
    &&& is_view(project.views@[0], "Terminal"@, "terminal"@)
    &&& is_view(project.views@[1], "Plotter"@, "plotter"@)
    &&& is_view(project.views@[2], "Packets"@, "packets"@)
    &&& is_view(project.views@[3], "PID Tuner"@, "pidtuner"@)
    &&& project.ui@ == "{}"@
}

/// The identifiers of the project that a new installation begins with, each under its
/// place.
#[derive(Debug, Clone, Copy)]
pub struct DemoIds {
    pub project: Uuid,
    pub source: Uuid,
    pub serial: Uuid,
    pub framer: Uuid,
    pub decoder: Uuid,
    pub setpoint: Uuid,
    pub measured: Uuid,
    pub smoothing: Uuid,
    pub output: Uuid,
    pub command: Uuid,
    pub profile: Uuid,
    pub terminal: Uuid,
    pub plotter: Uuid,
    pub packets: Uuid,
    pub tuner: Uuid,
}

impl DemoIds {
    /// The identifiers, each once, in the order in which a project lists them.
    pub open spec fn listed(self) -> Seq<Uuid> {
        seq![
            self.project,
            self.source,
            self.serial,
            self.framer,
            self.decoder,
            self.setpoint,
            self.measured,
            self.smoothing,
            self.output,
            self.command,
            self.profile,
            self.terminal,
            self.plotter,
            self.packets,
            self.tuner,
        ]
    }

    /// All identifiers are time-ordered.
    pub open spec fn fresh(self) -> bool {
        forall|i: int|
            0 <= i < self.listed().len() ==> fresh_id(#[trigger] self.listed()[i])
    }

    /// Fresh identifiers, one for each place.
    pub fn draw() -> (ids: DemoIds)
        ensures
            ids.fresh(),
    {
        DemoIds {
            project: Uuid::now_v7(),
            source: Uuid::now_v7(),
            serial: Uuid::now_v7(),
            framer: Uuid::now_v7(),
            decoder: Uuid::now_v7(),
            setpoint: Uuid::now_v7(),
            measured: Uuid::now_v7(),
            smoothing: Uuid::now_v7(),
            output: Uuid::now_v7(),
            command: Uuid::now_v7(),
            profile: Uuid::now_v7(),
            terminal: Uuid::now_v7(),
            plotter: Uuid::now_v7(),
            packets: Uuid::now_v7(),
            tuner: Uuid::now_v7(),
        }
    }
}

/// A view of a name and a kind, without settings.
pub open spec fn is_view(view: ViewSpec, name: Seq<char>, kind: Seq<char>) -> bool {
    &&& view.name@ == name
    &&& view.kind@ == kind
    &&& view.settings@ == "{}"@
}

fn new_view(id: Uuid, name: &str, kind: &str) -> (view: ViewSpec)
    ensures
        is_view(view, name@, kind@),
        view.id == id,
{
    ViewSpec {
        id,
        name: name.to_owned(),
        kind: kind.to_owned(),
        settings: "{}".to_owned(),
    }
}

fn new_channel<V>(
    id: Uuid,
    name: &str,
    color: &str,
    index: usize,
    transforms: Vec<TransformSpec<V>>,
) -> (channel: ChannelSpec<V>)
    ensures
        reads_cell(channel, name@, color@, index),
        channel.transforms == transforms,
        channel.id == id,
{
    ChannelSpec {
        id,
        name: name.to_owned(),
        unit: "%".to_owned(),
        color: color.to_owned(),
        source: ChannelSource::CsvIndex { index },
        transforms,
    }
}

/// The project that a new installation begins with, under given identifiers. The
/// numbers are the smoothing factor of the measurement and the limits of all gains.
pub fn demo_with<V: Copy>(ids: &DemoIds, alpha: V, low: V, high: V) -> (project: ToolboxProject<V>)
    ensures
        is_demo(project, alpha, low, high),
        project_ids(project) == ids.listed(),
        ids.listed().no_duplicates() ==> valid_project(project),
{
    let mut smoothing: Vec<TransformSpec<V>> = Vec::new();
    smoothing.push(TransformSpec::Ema { id: ids.smoothing, alpha });
    let setpoint = new_channel(ids.setpoint, "Setpoint", "#ffb454", 0, Vec::new());
    let measured = new_channel(ids.measured, "Measured", "#4de3c1", 1, smoothing);
    let output = new_channel(ids.output, "Output", "#7aa2ff", 2, Vec::new());
    let command = CommandProfile {
        id: ids.command,
        name: "Set PID".to_owned(),
        text_template: "PID,{kp},{ki},{kd}\r\n".to_owned(),
        min_gap_ms: 20,
    };
    let profile = PidProfile {
        id: ids.profile,
        name: "Main loop".to_owned(),
        setpoint_channel_id: ids.setpoint,
        measured_channel_id: ids.measured,
        output_channel_id: ids.output,
        command_profile_id: ids.command,
        kp_min: low,
        kp_max: high,
        ki_min: low,
        ki_max: high,
        kd_min: low,
        kd_max: high,
    };
    let mut delimiter: Vec<u8> = Vec::new();
    delimiter.push(10);
    assert(delimiter@ =~= seq![10u8]);
    let mut channels: Vec<ChannelSpec<V>> = Vec::new();
    channels.push(setpoint);
    channels.push(measured);
    channels.push(output);
    let mut commands: Vec<CommandProfile> = Vec::new();
    commands.push(command);
    let mut pid_profiles: Vec<PidProfile<V>> = Vec::new();
    pid_profiles.push(profile);
    let mut views: Vec<ViewSpec> = Vec::new();
    views.push(new_view(ids.terminal, "Terminal", "terminal"));
    views.push(new_view(ids.plotter, "Plotter", "plotter"));
    views.push(new_view(ids.packets, "Packets", "packets"));
    views.push(new_view(ids.tuner, "PID Tuner", "pidtuner"));
    let project = ToolboxProject {
        id: ids.project,
        name: "PID Loop Demo".to_owned(),
        project_schema_version: PROJECT_SCHEMA_VERSION.to_owned(),
        pipeline_semantic_version: PIPELINE_SEMANTIC_VERSION.to_owned(),
        app_version: APP_VERSION.to_owned(),
        source: SourceProfile {
            id: ids.source,
            name: "Primary device".to_owned(),
            serial: SerialConfig { id: ids.serial, ..SerialConfig::default() },
        },
        framer: Arc::new(
            FramerSpec::EndDelimiter { id: ids.framer, delimiter, max_frame_bytes: 65_536 },
        ),
        checksum: None,
        decoder: Arc::new(DecoderSpec::Csv { id: ids.decoder, delimiter: ',' }),
        channels: Arc::new(channels),
        commands: Arc::new(commands),
        pid_profiles: Arc::new(pid_profiles),
        views: Arc::new(views),
        ui: "{}".to_owned(),
    };
    proof {
        reveal_with_fuel(all_channel_ids, 4);
        let own = project.channels@;
        assert(own.drop_last().drop_last().drop_last() =~= Seq::<ChannelSpec<V>>::empty());
        assert(own.drop_last().drop_last().last() == own[0]);
        assert(own.drop_last().last() == own[1]);
        assert(all_channel_ids(own) =~= channel_ids(own[0]) + channel_ids(own[1])
            + channel_ids(own[2]));
        assert(channel_ids(own[0]) =~= seq![ids.setpoint]);
        assert(channel_ids(own[1]) =~= seq![ids.measured, ids.smoothing]);
        assert(channel_ids(own[2]) =~= seq![ids.output]);
        assert(project_ids(project) =~= ids.listed());
    }
    project
}

impl<V: Copy> ToolboxProject<V> {
    /// The project that a new installation begins with, under fresh identifiers.
    pub fn demo(alpha: V, low: V, high: V) -> (project: ToolboxProject<V>)
        ensures
            is_demo(project, alpha, low, high),
            exists|ids: DemoIds| #[trigger] ids.fresh() && project_ids(project) == ids.listed(),
            project_ids(project).no_duplicates() ==> valid_project(project),
    {
        let ids = DemoIds::draw();
        demo_with(&ids, alpha, low, high)
    }
}

/// The project that a new installation begins with can be used, and frames can be cut
/// by its rule, as long as no two fresh identifiers are the same.
pub proof fn law_the_first_project_can_be_used<V>(
    project: ToolboxProject<V>,
    alpha: V,
    low: V,
    high: V,
)
    requires
        is_demo(project, alpha, low, high),
        project_ids(project).no_duplicates(),
    ensures
        valid_project(project),
        crate::framer::rule_defect(project.framer@) is None,
{
}

/// Where an identifier stands in a project.
pub enum IdPlace {
    Project,
    Source,
    Line,
    Framer,
    Checksum,
    Decoder,
    Field(int),
    Channel(int),
    Transform(int, int),
    Command(int),
    Loop(int),
    Screen(int),
}

/// The identifier at a place of a project, if the project has that place.
pub open spec fn id_at<V>(project: ToolboxProject<V>, place: IdPlace) -> Option<Uuid> {
    match place {
        IdPlace::Project => Some(project.id),
        IdPlace::Source => Some(project.source.id),
        IdPlace::Line => Some(project.source.serial.id),
        IdPlace::Framer => Some(project.framer.id_spec()),
        IdPlace::Checksum => match project.checksum {
            Some(spec) => Some(spec.id),
            None => None,
        },
        IdPlace::Decoder => Some(project.decoder.id_spec()),
        IdPlace::Field(i) => match *project.decoder {
            DecoderSpec::Binary { fields, .. } => if 0 <= i < fields@.len() {
                Some(fields@[i].id)
            } else {
                None
            },
            _ => None,
        },
        IdPlace::Channel(i) => if 0 <= i < project.channels@.len() {
            Some(project.channels@[i].id)
        } else {
            None
        },
        IdPlace::Transform(i, k) => if 0 <= i < project.channels@.len() && 0 <= k
            < project.channels@[i].transforms@.len() {
            Some(project.channels@[i].transforms@[k].id_spec())
        } else {
            None
        },
        IdPlace::Command(i) => if 0 <= i < project.commands@.len() {
            Some(project.commands@[i].id)
        } else {
            None
        },
        IdPlace::Loop(i) => if 0 <= i < project.pid_profiles@.len() {
            Some(project.pid_profiles@[i].id)
        } else {
            None
        },
        IdPlace::Screen(i) => if 0 <= i < project.views@.len() {
            Some(project.views@[i].id)
        } else {
            None
        },
    }
}

spec fn field_count<V>(project: ToolboxProject<V>) -> int {
    match *project.decoder {
        DecoderSpec::Binary { fields, .. } => fields@.len() as int,
        _ => 0,
    }
}

spec fn checksum_count<V>(project: ToolboxProject<V>) -> int {
    if project.checksum is Some {
        1
    } else {
        0
    }
}

/// How many identifiers stand in the first channels.
spec fn channel_start<V>(channels: Seq<ChannelSpec<V>>, i: int) -> int
    decreases i,
{
    if i <= 0 {
        0
    } else {
        channel_start(channels, i - 1) + 1 + channels[i - 1].transforms@.len()
    }
}

/// The number of a place, where identifiers are numbered in order.
spec fn place_number<V>(project: ToolboxProject<V>, place: IdPlace) -> int {
    let fields = 5 + checksum_count(project);
    let channels = fields + field_count(project);
    let commands = channels + channel_start(project.channels@, project.channels@.len() as int);
    let loops = commands + project.commands@.len();
    let screens = loops + project.pid_profiles@.len();
    match place {
        IdPlace::Project => 0,
        IdPlace::Source => 1,
        IdPlace::Line => 2,
        IdPlace::Framer => 3,
        IdPlace::Checksum => 4,
        IdPlace::Decoder => fields - 1,
        IdPlace::Field(i) => fields + i,
        IdPlace::Channel(i) => channels + channel_start(project.channels@, i),
        IdPlace::Transform(i, k) => channels + channel_start(project.channels@, i) + 1 + k,
        IdPlace::Command(i) => commands + i,
        IdPlace::Loop(i) => loops + i,
        IdPlace::Screen(i) => screens + i,
    }
}

proof fn lemma_channel_start<V>(channels: Seq<ChannelSpec<V>>, i: int, j: int)
    requires
        0 <= i <= j,
    ensures
        i < j ==> channel_start(channels, i) + 1 + channels[i].transforms@.len() <= channel_start(
            channels,
            j,
        ),
        0 <= channel_start(channels, i) <= channel_start(channels, j),
    decreases j,
{
    if i < j {
        lemma_channel_start(channels, i, j - 1);
    } else if j > 0 {
        lemma_channel_start(channels, j - 1, j - 1);
    }
}

proof fn lemma_channel_start_prefix<V>(channels: Seq<ChannelSpec<V>>, i: int)
    requires
        0 <= i < channels.len(),
    ensures
        channel_start(channels.drop_last(), i) == channel_start(channels, i),
    decreases i,
{
    if i > 0 {
        lemma_channel_start_prefix(channels, i - 1);
        assert(channels.drop_last()[i - 1] == channels[i - 1]);
    }
}

proof fn lemma_channel_count<V>(channels: Seq<ChannelSpec<V>>)
    ensures
        all_channel_ids(channels).len() == channel_start(channels, channels.len() as int),
    decreases channels.len(),
{
    if channels.len() > 0 {
        lemma_channel_count(channels.drop_last());
        lemma_channel_start_prefix(channels, channels.len() - 1);
    }
}

/// The identifier of a channel, or that of its transform number `k`, stands where the channel
/// begins.
proof fn lemma_channel_id<V>(channels: Seq<ChannelSpec<V>>, i: int, k: int)
    requires
        0 <= i < channels.len(),
        -1 <= k < channels[i].transforms@.len(),
    ensures
        0 <= channel_start(channels, i) + 1 + k < all_channel_ids(channels).len(),
        all_channel_ids(channels)[channel_start(channels, i) + 1 + k] == if k < 0 {
            channels[i].id
        } else {
            channels[i].transforms@[k].id_spec()
        },
    decreases channels.len(),
{
    let head = channels.drop_last();
    let last = channels.len() - 1;
    lemma_channel_count(head);
    lemma_channel_start_prefix(channels, last);
    lemma_channel_start_prefix(channels, i);
    let before = all_channel_ids(head);
    let own = channel_ids(channels.last());
    assert(all_channel_ids(channels) == before + own);
    if i < last {
        assert(head[i] == channels[i]);
        lemma_channel_id(head, i, k);
    } else {
        lemma_channel_start(channels, 0, last);
        assert(own[1 + k] == if k < 0 {
            channels[i].id
        } else {
            channels[i].transforms@[k].id_spec()
        });
        assert((before + own)[before.len() + 1 + k] == own[1 + k]);
    }
}

/// Where the members of eight sequences stand when these are joined.
proof fn lemma_joined(
    a: Seq<Uuid>,
    b: Seq<Uuid>,
    c: Seq<Uuid>,
    d: Seq<Uuid>,
    e: Seq<Uuid>,
    f: Seq<Uuid>,
    g: Seq<Uuid>,
    h: Seq<Uuid>,
    i: int,
)
    requires
        0 <= i,
    ensures
        ({
            let all = a + b + c + d + e + f + g + h;
            let to_b = a.len() as int;
            let to_c = to_b + b.len();
            let to_d = to_c + c.len();
            let to_e = to_d + d.len();
            let to_f = to_e + e.len();
            let to_g = to_f + f.len();
            let to_h = to_g + g.len();
            &&& all.len() == to_h + h.len()
            &&& i < a.len() ==> all[i] == a[i]
            &&& i < b.len() ==> all[to_b + i] == b[i]
            &&& i < c.len() ==> all[to_c + i] == c[i]
            &&& i < d.len() ==> all[to_d + i] == d[i]
            &&& i < e.len() ==> all[to_e + i] == e[i]
            &&& i < f.len() ==> all[to_f + i] == f[i]
            &&& i < g.len() ==> all[to_g + i] == g[i]
            &&& i < h.len() ==> all[to_h + i] == h[i]
        }),
{
}

#[verifier::spinoff_prover]
#[verifier::rlimit(40)]
proof fn lemma_place<V>(project: ToolboxProject<V>, place: IdPlace)
    requires
        id_at(project, place) is Some,
    ensures
        0 <= place_number(project, place) < project_ids(project).len(),
        project_ids(project)[place_number(project, place)] == id_at(project, place)->Some_0,
{
    let channels = project.channels@;
    lemma_channel_count(channels);
    lemma_channel_start(channels, 0, channels.len() as int);
    let head = seq![
        project.id,
        project.source.id,
        project.source.serial.id,
        project.framer.id_spec(),
    ];
    let checksum = match project.checksum {
        Some(spec) => seq![spec.id],
        None => Seq::empty(),
    };
    let decoder = seq![project.decoder.id_spec()];
    let fields = match *project.decoder {
        DecoderSpec::Binary { fields, .. } => field_ids(fields@),
        _ => Seq::empty(),
    };
    let inner_ids = all_channel_ids(channels);
    let commands = project.commands@.map_values(|command: CommandProfile| command.id);
    let loops = project.pid_profiles@.map_values(|profile: PidProfile<V>| profile.id);
    let screens = project.views@.map_values(|view: ViewSpec| view.id);
    assert(project_ids(project) == head + checksum + decoder + fields + inner_ids + commands + loops
        + screens);
    assert(checksum.len() == checksum_count(project));
    assert(fields.len() == field_count(project));
    let id = id_at(project, place)->Some_0;
    let inner = match place {
        IdPlace::Project | IdPlace::Checksum | IdPlace::Decoder => 0,
        IdPlace::Source => 1,
        IdPlace::Line => 2,
        IdPlace::Framer => 3,
        IdPlace::Field(i) => i,
        IdPlace::Channel(i) => channel_start(channels, i),
        IdPlace::Transform(i, k) => channel_start(channels, i) + 1 + k,
        IdPlace::Command(i) => i,
        IdPlace::Loop(i) => i,
        IdPlace::Screen(i) => i,
    };
    match place {
        IdPlace::Channel(i) => {
            lemma_channel_id(channels, i, -1);
        },
        IdPlace::Transform(i, k) => {
            lemma_channel_id(channels, i, k);
        },
        _ => {},
    }
    lemma_joined(head, checksum, decoder, fields, inner_ids, commands, loops, screens, inner);
    match place {
        IdPlace::Project | IdPlace::Source | IdPlace::Line | IdPlace::Framer => {
            assert(head[inner] == id);
        },
        IdPlace::Checksum => {
            assert(checksum[inner] == id);
        },
        IdPlace::Decoder => {
            assert(decoder[inner] == id);
        },
        IdPlace::Field(_) => {
            assert(fields[inner] == id);
        },
        IdPlace::Channel(_) | IdPlace::Transform(_, _) => {
            assert(inner_ids[inner] == id);
        },
        IdPlace::Command(_) => {
            assert(commands[inner] == id);
        },
        IdPlace::Loop(_) => {
            assert(loops[inner] == id);
        },
        IdPlace::Screen(_) => {
            assert(screens[inner] == id);
        },
    }
}

proof fn lemma_places_differ<V>(project: ToolboxProject<V>, left: IdPlace, right: IdPlace)
    requires
        id_at(project, left) is Some,
        id_at(project, right) is Some,
        left != right,
    ensures
        place_number(project, left) != place_number(project, right),
{
    let channels = project.channels@;
    lemma_channel_start(channels, 0, channels.len() as int);
    match left {
        IdPlace::Channel(i) => lemma_channel_start(channels, i, channels.len() as int),
        IdPlace::Transform(i, _) => lemma_channel_start(channels, i, channels.len() as int),
        _ => {},
    }
    match right {
        IdPlace::Channel(i) => lemma_channel_start(channels, i, channels.len() as int),
        IdPlace::Transform(i, _) => lemma_channel_start(channels, i, channels.len() as int),
        _ => {},
    }
    let i = match left {
        IdPlace::Channel(i) => i,
        IdPlace::Transform(i, _) => i,
        _ => 0,
    };
    let j = match right {
        IdPlace::Channel(j) => j,
        IdPlace::Transform(j, _) => j,
        _ => 0,
    };
    if i <= j {
        lemma_channel_start(channels, i, j);
    } else {
        lemma_channel_start(channels, j, i);
    }
}

/// The channel, or the transform, that has a number among the identifiers of channels.
proof fn lemma_channel_place<V>(channels: Seq<ChannelSpec<V>>, number: int) -> (found: (int, int))
    requires
        0 <= number < channel_start(channels, channels.len() as int),
    ensures
        0 <= found.0 < channels.len(),
        -1 <= found.1 < channels[found.0].transforms@.len(),
        number == channel_start(channels, found.0) + 1 + found.1,
    decreases channels.len(),
{
    if channels.len() == 0 {
        (0, 0)
    } else {
        let last = channels.len() - 1;
        if number >= channel_start(channels, last) {
            (last, number - channel_start(channels, last) - 1)
        } else {
            lemma_channel_start_prefix(channels, last);
            let found = lemma_channel_place(channels.drop_last(), number);
            lemma_channel_start_prefix(channels, found.0);
            assert(channels.drop_last()[found.0] == channels[found.0]);
            found
        }
    }
}

/// The place that has a number.
proof fn lemma_number<V>(project: ToolboxProject<V>, number: int) -> (place: IdPlace)
    requires
        0 <= number < project_ids(project).len(),
    ensures
        id_at(project, place) is Some,
        place_number(project, place) == number,
{
    let channels = project.channels@;
    lemma_channel_count(channels);
    let fields_at = 5 + checksum_count(project);
    let channels_at = fields_at + field_count(project);
    let commands_at = channels_at + channel_start(channels, channels.len() as int);
    let loops_at = commands_at + project.commands@.len();
    let screens_at = loops_at + project.pid_profiles@.len();
    if number == 0 {
        IdPlace::Project
    } else if number == 1 {
        IdPlace::Source
    } else if number == 2 {
        IdPlace::Line
    } else if number == 3 {
        IdPlace::Framer
    } else if number < fields_at - 1 {
        IdPlace::Checksum
    } else if number < fields_at {
        IdPlace::Decoder
    } else if number < channels_at {
        IdPlace::Field(number - fields_at)
    } else if number < commands_at {
        let found = lemma_channel_place(channels, number - channels_at);
        if found.1 < 0 {
            IdPlace::Channel(found.0)
        } else {
            IdPlace::Transform(found.0, found.1)
        }
    } else if number < loops_at {
        IdPlace::Command(number - commands_at)
    } else if number < screens_at {
        IdPlace::Loop(number - loops_at)
    } else {
        IdPlace::Screen(number - screens_at)
    }
}

/// A project in which an identifier stands at two places is refused.
pub proof fn law_no_identifier_stands_at_two_places<V>(
    project: &ToolboxProject<V>,
    result: ToolboxResult<()>,
    left: IdPlace,
    right: IdPlace,
)
    requires
        call_ensures(validate_project::<V>, (project,), result),
        left != right,
        id_at(*project, left) is Some,
        id_at(*project, left) == id_at(*project, right),
    ensures
        result is Err,
{
    lemma_place(*project, left);
    lemma_place(*project, right);
    lemma_places_differ(*project, left, right);
    let ids = project_ids(*project);
    if ids.no_duplicates() {
        assert(ids[place_number(*project, left)] == ids[place_number(*project, right)]);
    }
}

/// A project of this version in which all identifiers differ is accepted; one of another
/// version is refused. Where an identifier stands at two places, one such is named.
pub proof fn law_a_project_is_accepted_for_its_identifiers<V>(
    project: &ToolboxProject<V>,
    result: ToolboxResult<()>,
)
    requires
        call_ensures(validate_project::<V>, (project,), result),
    ensures
        project.project_schema_version@ != "1.0.0"@ ==> result is Err
            && result->Err_0.message_key@ == "project_schema_unsupported"@,
        project.project_schema_version@ == "1.0.0"@ && project.pipeline_semantic_version@
            != "1.0.0"@ ==> result is Err && result->Err_0.message_key@
            == "pipeline_version_unsupported"@,
        project.project_schema_version@ == "1.0.0"@ && project.pipeline_semantic_version@
            == "1.0.0"@ && (forall|left: IdPlace, right: IdPlace|
            #![trigger id_at(*project, left), id_at(*project, right)]
            left != right && id_at(*project, left) is Some ==> id_at(*project, left) != id_at(
                *project,
                right,
            )) ==> result is Ok,
        project.project_schema_version@ == "1.0.0"@ && project.pipeline_semantic_version@
            == "1.0.0"@ && result is Err ==> exists|left: IdPlace, right: IdPlace|
            {
                &&& left != right
                &&& #[trigger] id_at(*project, left) == #[trigger] id_at(*project, right)
                &&& id_at(*project, left) is Some
                &&& result->Err_0@.context["id"@] == ContextData::Id(
                    id_at(*project, left)->Some_0,
                )
            },
{
    let ids = project_ids(*project);
    if project.project_schema_version@ == "1.0.0"@ && project.pipeline_semantic_version@
        == "1.0.0"@ && result is Err {
        let i = choose|i: int| #[trigger]
            first_repeat(ids, i) && result->Err_0@ == duplicate_error(ids[i]);
        let k = choose|k: int| 0 <= k < i && ids.take(i)[k] == ids[i];
        assert(ids[k] == ids[i]);
        let left = lemma_number(*project, i);
        let right = lemma_number(*project, k);
        lemma_place(*project, left);
        lemma_place(*project, right);
        assert(left != right);
        assert(id_at(*project, left) == id_at(*project, right));
    }
}

/// Lines carry data alike exactly if they differ in nothing but their identifier, their port
/// and their time-out.
pub proof fn law_a_line_carries_data_alike_elsewhere(
    left: &SerialConfig,
    right: &SerialConfig,
    equal: bool,
)
    requires
        call_ensures(serial_semantics_equal, (left, right), equal),
    ensures
        equal <==> *left == (SerialConfig {
            id: left.id,
            port_name: left.port_name,
            timeout_ms: left.timeout_ms,
            ..*right
        }),
{
}

/// The project that a new installation begins with reads lines that end with a line feed, of
/// three cells between commas, over a line of 115200 baud with eight data bits, one stop bit
/// and no parity: the first cell is the setpoint, the second the measurement, which is
/// smoothed, and the third the output of the one loop that is tuned. Its identifiers are those
/// that it was given.
pub proof fn law_the_first_project_reads_three_cells<V: Copy>(
    ids: &DemoIds,
    alpha: V,
    low: V,
    high: V,
    project: ToolboxProject<V>,
)
    requires
        call_ensures(demo_with::<V>, (ids, alpha, low, high), project),
    ensures
        project.source.serial.baud_rate == 115_200,
        project.source.serial.data_bits == 8,
        project.source.serial.stop_bits == 1,
        project.source.serial.parity == Parity::Off,
        project.source.serial.flow_control == FlowControl::Off,
        project.source.serial.timeout_ms == 20,
        project.framer@ is EndDelimiter,
        project.framer@->delimiter == seq![10u8],
        project.framer@.max_frame_bytes() == 64 * 1024,
        project.checksum is None,
        *project.decoder is Csv,
        project.decoder->delimiter == ',',
        project.channels@.len() == 3,
        project.channels@[0].source == (ChannelSource::CsvIndex { index: 0 }),
        project.channels@[1].source == (ChannelSource::CsvIndex { index: 1 }),
        project.channels@[2].source == (ChannelSource::CsvIndex { index: 2 }),
        project.channels@[0].transforms@.len() == 0,
        project.channels@[1].transforms@.len() == 1,
        project.channels@[1].transforms@[0] is Ema,
        project.channels@[1].transforms@[0]->alpha == alpha,
        project.channels@[2].transforms@.len() == 0,
        project.pid_profiles@.len() == 1,
        project.pid_profiles@[0].setpoint_channel_id == project.channels@[0].id,
        project.pid_profiles@[0].measured_channel_id == project.channels@[1].id,
        project.pid_profiles@[0].output_channel_id == project.channels@[2].id,
        project.pid_profiles@[0].command_profile_id == project.commands@[0].id,
        project.pid_profiles@[0].kp_min == low && project.pid_profiles@[0].kp_max == high,
        project.pid_profiles@[0].ki_min == low && project.pid_profiles@[0].ki_max == high,
        project.pid_profiles@[0].kd_min == low && project.pid_profiles@[0].kd_max == high,
        project.commands@.len() == 1,
        project.commands@[0].text_template@ == "PID,{kp},{ki},{kd}\r\n"@,
        project.commands@[0].min_gap_ms == 20,
        project.views@.len() == 4,
        project.project_schema_version@ == "1.0.0"@,
        project.pipeline_semantic_version@ == "1.0.0"@,
        project.id == ids.project,
        project.source.id == ids.source,
{
    assert(project_ids(project)[0] == project.id);
    assert(project_ids(project)[1] == project.source.id);
    assert(ids.listed()[0] == ids.project);
    assert(ids.listed()[1] == ids.source);
}

} // verus!
