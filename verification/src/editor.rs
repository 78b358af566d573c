//! The editor window's decisions: the title bar and its toolbar, the node
//! graph view's node menu and pin counts, the file pickers of input widgets,
//! what a freshly loaded project's node inputs become, which graph errors
//! are shown, and how the borderless window is resized from its edges.
use vstd::prelude::*;
use vstd::string::StringExecFns;
use crate::graph::{EditorGraph, NodeData, SnarlNodeId, VIRTUAL_OUTPUT_SINK_NAME, has_node, is_sink, node_data};
use crate::library::{NodeLibrary, find_def};
use crate::schema::{EngineNodeId, InputValueView, NodeDefinition, NodeInput, default_input_value, spec_default_input_value};
use crate::text::{decimal, push_decimal, text_eq};
use crate::values::InputValues;

verus! {

/// An action of the editor's toolbar.
#[derive(Clone, Copy, Debug, PartialEq, Eq, Structural)]
pub enum Command {
    SaveProject,
}

/// A toolbar button: a label, and the command a click issues.
pub trait ToolBarButton {
    fn label(&self) -> &str;

    fn on_click(&mut self) -> Option<Command>;
}

/// The toolbar button that saves the open project.
#[derive(Debug)]
pub struct SaveButton;

impl ToolBarButton for SaveButton {
    fn label(&self) -> (r: &str)
        ensures
            r@ == "Save"@,
    {
        "Save"
    }

    fn on_click(&mut self) -> (r: Option<Command>)
        ensures
            r == Some(Command::SaveProject),
    {
        Some(Command::SaveProject)
    }
}

impl SaveButton {
    /// "Save".
    pub fn label_text(&self) -> (r: &'static str)
        ensures
            r@ == "Save"@,
    {
        "Save"
    }

    /// Clicking saves the project.
    pub fn click(&mut self) -> (r: Option<Command>)
        ensures
            r == Some(Command::SaveProject),
    {
        Some(Command::SaveProject)
    }
}

/// The toolbar: its buttons, and the commands clicks issued that the app
/// has not handled yet.
#[derive(Debug)]
pub struct ToolBar {
    pub save: SaveButton,
    pending: Vec<Command>,
}

impl ToolBar {
    /// A toolbar with the save button and nothing pending.
    pub fn new() -> (r: Self)
        ensures
            r.pending_commands() == Seq::<Command>::empty(),
    {
        ToolBar { save: SaveButton, pending: Vec::new() }
    }

    /// The commands issued and not handled yet, oldest first.
    pub closed spec fn pending_commands(&self) -> Seq<Command> {
        self.pending@
    }

    /// A click on the save button queues its command.
    pub fn click_save(&mut self)
        ensures
            final(self).pending_commands() == old(self).pending_commands().push(Command::SaveProject),
    {
        let c = self.save.click();
        match c {
            Some(c) => self.pending.push(c),
            None => {},
        }
    }

    /// Takes the pending commands, oldest first.
    pub fn drain_pending(&mut self) -> (r: Vec<Command>)
        ensures
            r@ == old(self).pending_commands(),
            final(self).pending_commands() == Seq::<Command>::empty(),
    {
        let mut taken: Vec<Command> = Vec::new();
        std::mem::swap(&mut taken, &mut self.pending);
        taken
    }
}

/// A request to the window system.
#[derive(Clone, Copy, Debug, PartialEq, Eq, Structural)]
pub enum ViewportCommand {
    /// Maximize (`true`) or restore (`false`) the window.
    Maximized(bool),
    /// Minimize the window.
    Minimized(bool),
    /// Start moving the window with the pointer.
    StartDrag,
    /// Close the window.
    Close,
}

/// What happened in the title bar during one frame.
#[derive(Clone, Copy, Debug, PartialEq, Eq, Structural)]
pub struct TitleBarInput {
    /// The free space between toolbar and window buttons was double-clicked.
    pub spacer_double_clicked: bool,
    /// A primary-button drag started on that space.
    pub spacer_drag_started: bool,
    /// Some pointer button is held.
    pub pointer_down: bool,
    /// The window is maximized.
    pub maximized: bool,
    pub close_clicked: bool,
    /// The maximize/restore button was clicked.
    pub maximize_clicked: bool,
    pub minimize_clicked: bool,
}

/// What the title bar does in response.
#[derive(Debug)]
pub struct TitleBarOutput {
    /// Requests to the window system, in order.
    pub commands: Vec<ViewportCommand>,
    /// Keep the default cursor (a window drag is in progress).
    pub default_cursor: bool,
    /// The maximize button shows "Restore" (else "Maximize").
    pub shows_restore: bool,
}

/// The title bar: the toolbar on the left, window buttons on the right, and
/// free space between them that moves the window when dragged.
#[derive(Debug)]
pub struct TitleBarArea {
    pub toolbar: ToolBar,
    /// A window drag started here and the pointer is still held.
    pub dragging: bool,
}

/// The commands one title-bar frame issues: toggle maximize on a double
/// click, start a window drag, then the clicked window buttons (close,
/// maximize or restore, minimize).
pub open spec fn title_bar_commands(input: TitleBarInput) -> Seq<ViewportCommand> {
    (if input.spacer_double_clicked { seq![ViewportCommand::Maximized(!input.maximized)] } else { seq![] })
        + (if input.spacer_drag_started { seq![ViewportCommand::StartDrag] } else { seq![] })
        + (if input.close_clicked { seq![ViewportCommand::Close] } else { seq![] })
        + (if input.maximize_clicked { seq![ViewportCommand::Maximized(!input.maximized)] } else { seq![] })
        + (if input.minimize_clicked { seq![ViewportCommand::Minimized(true)] } else { seq![] })
}

impl TitleBarArea {
    /// A title bar with the toolbar, not dragging.
    pub fn new() -> (r: Self)
        ensures
            !r.dragging,
            r.toolbar.pending_commands() == Seq::<Command>::empty(),
    {
        TitleBarArea { toolbar: ToolBar::new(), dragging: false }
    }

    /// The toolbar.
    pub fn toolbar_mut(&mut self) -> (r: &mut ToolBar)
        ensures
            r.pending_commands() == old(self).toolbar.pending_commands(),
            final(self).toolbar.pending_commands() == final(r).pending_commands(),
            final(self).dragging == old(self).dragging,
    {
        &mut self.toolbar
    }

    /// Handles one frame of title bar input. A drag that starts marks the
    /// bar as dragging until no pointer button is held; while dragging, the
    /// cursor stays the default one.
    pub fn step(&mut self, input: TitleBarInput) -> (r: TitleBarOutput)
        ensures
            final(self).dragging == ((old(self).dragging || input.spacer_drag_started) && input.pointer_down),
            r.commands@ == title_bar_commands(input),
            r.default_cursor == final(self).dragging,
            r.shows_restore == input.maximized,
    {
        let mut commands: Vec<ViewportCommand> = Vec::new();
        if input.spacer_double_clicked {
            commands.push(ViewportCommand::Maximized(!input.maximized));
        }
        let ghost c1 = commands@;
        if input.spacer_drag_started {
            commands.push(ViewportCommand::StartDrag);
            self.dragging = true;
        }
        if !input.pointer_down {
            self.dragging = false;
        }
        let ghost c2 = commands@;
        if input.close_clicked {
            commands.push(ViewportCommand::Close);
        }
        let ghost c3 = commands@;
        if input.maximize_clicked {
            commands.push(ViewportCommand::Maximized(!input.maximized));
        }
        let ghost c4 = commands@;
        if input.minimize_clicked {
            commands.push(ViewportCommand::Minimized(true));
        }
        assert(commands@ =~= title_bar_commands(input));
        TitleBarOutput { commands, default_cursor: self.dragging, shows_restore: input.maximized }
    }
}

/// Which files a file input's picker offers.
#[derive(Clone, Copy, Debug, PartialEq, Eq, Structural)]
pub enum FileFilter {
    Video,
    Image,
    Any,
}

/// The picker filter for a file input of node `node_name`: video files for
/// the "Video" node, image files for the "Image" node, anything otherwise.
pub fn file_filter_for(library: &NodeLibrary, node_name: &str) -> (r: FileFilter)
    ensures
        r == match find_def(library@, node_name@) {
            Some(d) => if d.node.name@ == "Video"@ {
                FileFilter::Video
            } else if d.node.name@ == "Image"@ {
                FileFilter::Image
            } else {
                FileFilter::Any
            },
            None => FileFilter::Any,
        },
{
    match library.get_definition(node_name) {
        Some(d) => {
            if text_eq(d.node.name.as_str(), "Video") {
                FileFilter::Video
            } else if text_eq(d.node.name.as_str(), "Image") {
                FileFilter::Image
            } else {
                FileFilter::Any
            }
        },
        None => FileFilter::Any,
    }
}

/// The key of a file input's pending picker: the node (as the graph view
/// prints its id) and the input's name.
pub fn file_dialog_key(node_id: usize, input_name: &str) -> (r: String)
    ensures
        r@ == "NodeId("@ + decimal(node_id as nat) + "):"@ + input_name@,
{
    let mut s = String::from_str("NodeId(");
    push_decimal(&mut s, node_id);
    s.append("):");
    s.append(input_name);
    s
}

/// The file pickers that are open, by key.
#[derive(Debug)]
pub struct InputWidgetState {
    pending_file_dialogs: Vec<String>,
}

impl View for InputWidgetState {
    type V = Set<Seq<char>>;

    closed spec fn view(&self) -> Set<Seq<char>> {
        crate::sorted::views(self.pending_file_dialogs@).to_set()
    }
}

impl InputWidgetState {
    /// No picker open.
    pub fn new() -> (r: Self)
        ensures
            r@ == Set::<Seq<char>>::empty(),
    {
        let r = InputWidgetState { pending_file_dialogs: Vec::new() };
        assert(r@ =~= Set::<Seq<char>>::empty());
        r
    }

    /// Whether the picker with key `key` is open.
    pub fn is_pending(&self, key: &str) -> (r: bool)
        ensures
            r == self@.contains(key@),
    {
        let mut i: usize = 0;
        while i < self.pending_file_dialogs.len()
            invariant
                i <= self.pending_file_dialogs@.len(),
                forall|j: int| 0 <= j < i ==> (#[trigger] self.pending_file_dialogs@[j])@ != key@,
            decreases self.pending_file_dialogs.len() - i,
        {
            if text_eq(self.pending_file_dialogs[i].as_str(), key) {
                assert(crate::sorted::views(self.pending_file_dialogs@)[i as int] == key@);
                return true;
            }
            i = i + 1;
        }
        proof {
            if self@.contains(key@) {
                let j = choose|j: int|
                    0 <= j < crate::sorted::views(self.pending_file_dialogs@).len() && crate::sorted::views(
                        self.pending_file_dialogs@,
                    )[j] == key@;
                assert(self.pending_file_dialogs@[j]@ == key@);
            }
        }
        false
    }

    /// Opens the picker with key `key` unless it is open; returns whether it
    /// was opened (a click on a pending input opens no second picker).
    pub fn open(&mut self, key: String) -> (r: bool)
        ensures
            r == !old(self)@.contains(key@),
            final(self)@ == old(self)@.insert(key@),
    {
        if self.is_pending(key.as_str()) {
            assert(self@.insert(key@) =~= self@);
            return false;
        }
        let ghost before = self.pending_file_dialogs@;
        let ghost k = key@;
        self.pending_file_dialogs.push(key);
        assert(crate::sorted::views(self.pending_file_dialogs@) =~= crate::sorted::views(before).push(k));
        proof {
            let vs = crate::sorted::views(self.pending_file_dialogs@);
            assert forall|x: Seq<char>| vs.contains(x) <==> crate::sorted::views(before).contains(x) || x == k by {
                if vs.contains(x) {
                    let j = choose|j: int| 0 <= j < vs.len() && vs[j] == x;
                    if j < before.len() {
                        assert(crate::sorted::views(before)[j] == x);
                    }
                }
                if crate::sorted::views(before).contains(x) {
                    let j = choose|j: int| 0 <= j < crate::sorted::views(before).len() && crate::sorted::views(before)[j] == x;
                    assert(vs[j] == x);
                }
                if x == k {
                    assert(vs[before.len() as int] == x);
                }
            }
            assert(self@ =~= old(self)@.insert(k));
        }
        true
    }

    /// Closes the picker with key `key` (it returned a file or was cancelled).
    pub fn close(&mut self, key: &str)
        ensures
            final(self)@ == old(self)@.remove(key@),
    {
        let ghost before = crate::sorted::views(self.pending_file_dialogs@);
        let ghost keep = |x: Seq<char>| x != key@;
        let mut kept: Vec<String> = Vec::new();
        let mut i: usize = 0;
        while i < self.pending_file_dialogs.len()
            invariant
                before == crate::sorted::views(self.pending_file_dialogs@),
                keep == (|x: Seq<char>| x != key@),
                i <= self.pending_file_dialogs@.len(),
                crate::sorted::views(kept@) == before.take(i as int).filter(keep),
            decreases self.pending_file_dialogs.len() - i,
        {
            proof {
                crate::library::lemma_filter_take_step(before, keep, i as int);
            }
            let ghost prev = kept@;
            if !text_eq(self.pending_file_dialogs[i].as_str(), key) {
                kept.push(self.pending_file_dialogs[i].clone());
                assert(crate::sorted::views(kept@) =~= crate::sorted::views(prev).push(before[i as int]));
            }
            i = i + 1;
        }
        proof {
            crate::library::lemma_filter_take_all(before, keep);
        }
        self.pending_file_dialogs = kept;
        proof {
            broadcast use vstd::seq_lib::group_filter_ensures;

            assert forall|x: Seq<char>| self@.contains(x) <==> old(self)@.remove(key@).contains(x) by {
                if before.contains(x) && x != key@ {
                    let j = choose|j: int| 0 <= j < before.len() && before[j] == x;
                    before.lemma_filter_contains(keep, j);
                }
                if before.filter(keep).contains(x) {
                    before.lemma_filter_contains_rev(keep, x);
                    let j = choose|j: int| 0 <= j < before.filter(keep).len() && before.filter(keep)[j] == x;
                    before.lemma_filter_pred(keep, j);
                }
            }
            assert(self@ =~= old(self)@.remove(key@));
        }
    }
}

/// The title the graph view shows on a node: "Output" for the sink, else
/// its definition's display name, else its definition name.
pub fn node_title(library: &NodeLibrary, node: &NodeData) -> (r: String)
    ensures
        r@ == (if is_sink(*node) {
            "Output"@
        } else {
            match find_def(library@, node.definition_name@) {
                Some(d) => d.node.name@,
                None => node.definition_name@,
            }
        }),
{
    if text_eq(node.definition_name.as_str(), VIRTUAL_OUTPUT_SINK_NAME) {
        return String::from_str("Output");
    }
    match library.get_definition(node.definition_name.as_str()) {
        Some(d) => d.node.name.clone(),
        None => node.definition_name.clone(),
    }
}

/// How many input pins the graph view shows on a node: one on the sink,
/// else its definition's inputs (none if unknown).
pub fn node_input_count(library: &NodeLibrary, node: &NodeData) -> (r: usize)
    ensures
        r == (if is_sink(*node) {
            1
        } else {
            match find_def(library@, node.definition_name@) {
                Some(d) => d.node.inputs@.len(),
                None => 0,
            }
        }),
{
    if text_eq(node.definition_name.as_str(), VIRTUAL_OUTPUT_SINK_NAME) {
        return 1;
    }
    match library.get_definition(node.definition_name.as_str()) {
        Some(d) => d.node.inputs.len(),
        None => 0,
    }
}

/// How many output pins the graph view shows on a node: none on the sink,
/// else its definition's outputs (none if unknown).
pub fn node_output_count(library: &NodeLibrary, node: &NodeData) -> (r: usize)
    ensures
        r == (if is_sink(*node) {
            0
        } else {
            match find_def(library@, node.definition_name@) {
                Some(d) => d.node.outputs@.len(),
                None => 0,
            }
        }),
{
    if text_eq(node.definition_name.as_str(), VIRTUAL_OUTPUT_SINK_NAME) {
        return 0;
    }
    match library.get_definition(node.definition_name.as_str()) {
        Some(d) => d.node.outputs.len(),
        None => 0,
    }
}

/// The default values of a list of inputs, later inputs overriding
/// earlier ones of the same name.
pub open spec fn default_values(inputs: Seq<NodeInput>) -> Map<Seq<char>, InputValueView>
    decreases inputs.len(),
{
    if inputs.len() == 0 {
        Map::empty()
    } else {
        let prev = default_values(inputs.drop_last());
        match spec_default_input_value(inputs.last().kind) {
            Some(v) => prev.insert(inputs.last().name@, v),
            None => prev,
        }
    }
}

/// The data of a node added from the graph menu: its definition's name and
/// the default value of every input that has one.
pub fn new_node_data(definition_name: &str, definition: &NodeDefinition) -> (r: NodeData)
    ensures
        r.definition_name@ == definition_name@,
        r.input_values@ == default_values(definition.node.inputs@),
        r.engine_node_id is None,
{
    let ghost inputs = definition.node.inputs@;
    let mut values = InputValues::new();
    let mut i: usize = 0;
    while i < definition.node.inputs.len()
        invariant
            inputs == definition.node.inputs@,
            i <= inputs.len(),
            values@ == default_values(inputs.take(i as int)),
        decreases definition.node.inputs.len() - i,
    {
        let input = &definition.node.inputs[i];
        assert(inputs.take(i + 1).drop_last() =~= inputs.take(i as int));
        match default_input_value(input) {
            Some(v) => values.insert(input.name.clone(), v),
            None => {},
        }
        i = i + 1;
    }
    assert(inputs.take(i as int) =~= inputs);
    NodeData { definition_name: String::from_str(definition_name), input_values: values, engine_node_id: None }
}

/// The names of the inputs of `def` that some wire into node `n` feeds.
pub open spec fn wired_input_names(wires: Seq<crate::graph::Wire>, n: SnarlNodeId, inputs: Seq<NodeInput>) -> Set<Seq<char>> {
    Set::new(
        |k: Seq<char>|
            exists|w: int|
                0 <= w < wires.len() && (#[trigger] wires[w]).to.node == n && wires[w].to.input < inputs.len()
                    && inputs[wires[w].to.input as int].name@ == k,
    )
}

/// The values after defaults are added for the inputs (in order) that are
/// neither wired nor configured.
pub open spec fn with_defaults(m: Map<Seq<char>, InputValueView>, inputs: Seq<NodeInput>, wired: Set<Seq<char>>) -> Map<Seq<char>, InputValueView>
    decreases inputs.len(),
{
    if inputs.len() == 0 {
        m
    } else {
        let prev = with_defaults(m, inputs.drop_last(), wired);
        let input = inputs.last();
        if wired.contains(input.name@) || prev.contains_key(input.name@) {
            prev
        } else {
            match spec_default_input_value(input.kind) {
                Some(v) => prev.insert(input.name@, v),
                None => prev,
            }
        }
    }
}

/// The names the inputs declare.
pub open spec fn declared_names(inputs: Seq<NodeInput>) -> Set<Seq<char>> {
    Set::new(|k: Seq<char>| exists|i: int| 0 <= i < inputs.len() && (#[trigger] inputs[i]).name@ == k)
}

/// A node's values brought in line with its definition: defaults added for
/// inputs neither wired nor configured, values of undeclared inputs dropped.
pub open spec fn normalized_values(m: Map<Seq<char>, InputValueView>, inputs: Seq<NodeInput>, wired: Set<Seq<char>>) -> Map<Seq<char>, InputValueView> {
    with_defaults(m, inputs, wired).restrict(declared_names(inputs))
}

/// The names of the inputs of `node` fed by some wire, as exec strings.
fn wired_names(graph: &EditorGraph, node: SnarlNodeId, def: &NodeDefinition) -> (r: Vec<String>)
    ensures
        forall|k: Seq<char>| #[trigger] crate::sorted::views(r@).contains(k) <==> wired_input_names(
            graph.wires@,
            node,
            def.node.inputs@,
        ).contains(k),
{
    let mut r: Vec<String> = Vec::new();
    let mut w: usize = 0;
    while w < graph.wires.len()
        invariant
            w <= graph.wires@.len(),
            forall|k: Seq<char>| #[trigger] crate::sorted::views(r@).contains(k) <==> exists|t: int|
                0 <= t < w && (#[trigger] graph.wires@[t]).to.node == node && graph.wires@[t].to.input
                    < def.node.inputs@.len() && def.node.inputs@[graph.wires@[t].to.input as int].name@ == k,
        decreases graph.wires.len() - w,
    {
        let wire = graph.wires[w];
        let ghost prev = r@;
        if wire.to.node == node && wire.to.input < def.node.inputs.len() {
            r.push(def.node.inputs[wire.to.input].name.clone());
        }
        proof {
            assert forall|k: Seq<char>| #[trigger] crate::sorted::views(r@).contains(k) <==> exists|t: int|
                0 <= t < w + 1 && (#[trigger] graph.wires@[t]).to.node == node && graph.wires@[t].to.input
                    < def.node.inputs@.len() && def.node.inputs@[graph.wires@[t].to.input as int].name@ == k by {
                if crate::sorted::views(r@).contains(k) {
                    let j = choose|j: int| 0 <= j < crate::sorted::views(r@).len() && crate::sorted::views(r@)[j] == k;
                    if j < prev.len() {
                        assert(crate::sorted::views(prev)[j] == k);
                        assert(crate::sorted::views(prev).contains(k));
                    } else {
                        assert(graph.wires@[w as int] == wire);
                    }
                }
                if exists|t: int|
                    0 <= t < w + 1 && (#[trigger] graph.wires@[t]).to.node == node && graph.wires@[t].to.input
                        < def.node.inputs@.len() && def.node.inputs@[graph.wires@[t].to.input as int].name@ == k {
                    let t = choose|t: int|
                        0 <= t < w + 1 && (#[trigger] graph.wires@[t]).to.node == node && graph.wires@[t].to.input
                            < def.node.inputs@.len() && def.node.inputs@[graph.wires@[t].to.input as int].name@ == k;
                    if t < w {
                        assert(crate::sorted::views(prev).contains(k));
                        let j = choose|j: int| 0 <= j < crate::sorted::views(prev).len() && crate::sorted::views(prev)[j] == k;
                        assert(crate::sorted::views(r@)[j] == k);
                    } else {
                        assert(crate::sorted::views(r@)[prev.len() as int] == k);
                    }
                }
            }
        }
        w = w + 1;
    }
    r
}

/// Whether `names` holds `k`.
fn has_name_in(names: &Vec<String>, k: &str) -> (r: bool)
    ensures
        r == crate::sorted::views(names@).contains(k@),
{
    let mut i: usize = 0;
    while i < names.len()
        invariant
            i <= names@.len(),
            forall|j: int| 0 <= j < i ==> (#[trigger] names@[j])@ != k@,
        decreases names.len() - i,
    {
        if text_eq(names[i].as_str(), k) {
            assert(crate::sorted::views(names@)[i as int] == k@);
            return true;
        }
        i = i + 1;
    }
    proof {
        if crate::sorted::views(names@).contains(k@) {
            let j = choose|j: int| 0 <= j < crate::sorted::views(names@).len() && crate::sorted::views(names@)[j] == k@;
            assert(names@[j]@ == k@);
        }
    }
    false
}

/// Brings one node's values in line with its definition.
fn normalize_values(values: &mut InputValues, def: &NodeDefinition, wired: &Vec<String>)
    ensures
        final(values)@ == normalized_values(
            old(values)@,
            def.node.inputs@,
            crate::sorted::views(wired@).to_set(),
        ),
{
    let ghost inputs = def.node.inputs@;
    let ghost ws = crate::sorted::views(wired@).to_set();
    let ghost m = values@;
    let mut i: usize = 0;
    while i < def.node.inputs.len()
        invariant
            inputs == def.node.inputs@,
            ws == crate::sorted::views(wired@).to_set(),
            i <= inputs.len(),
            values@ == with_defaults(m, inputs.take(i as int), ws),
        decreases def.node.inputs.len() - i,
    {
        let input = &def.node.inputs[i];
        assert(inputs.take(i + 1).drop_last() =~= inputs.take(i as int));
        if !has_name_in(wired, input.name.as_str()) && !values.contains_key(input.name.as_str()) {
            match default_input_value(input) {
                Some(v) => values.insert(input.name.clone(), v),
                None => {},
            }
        }
        i = i + 1;
    }
    assert(inputs.take(i as int) =~= inputs);
    let ghost filled = values@;
    let keys = values.keys();
    let mut k: usize = 0;
    while k < keys.len()
        invariant
            inputs == def.node.inputs@,
            forall|x: Seq<char>| filled.contains_key(x) <==> exists|j: int| 0 <= j < keys@.len() && (#[trigger] keys@[j])@ == x,
            k <= keys@.len(),
            values@ == filled.remove_keys(Set::new(
                |x: Seq<char>| exists|j: int| 0 <= j < k && (#[trigger] keys@[j])@ == x && !declared_names(inputs).contains(x),
            )),
        decreases keys.len() - k,
    {
        let ghost before = values@;
        let name = &keys[k];
        let mut declared = false;
        let mut d: usize = 0;
        while d < def.node.inputs.len()
            invariant
                inputs == def.node.inputs@,
                d <= inputs.len(),
                declared == exists|j: int| 0 <= j < d && (#[trigger] inputs[j]).name@ == name@,
            decreases def.node.inputs.len() - d,
        {
            if text_eq(def.node.inputs[d].name.as_str(), name.as_str()) {
                declared = true;
            }
            d = d + 1;
        }
        if !declared {
            values.remove(name.as_str());
        }
        proof {
            assert(values@ =~= filled.remove_keys(Set::new(
                |x: Seq<char>| exists|j: int| 0 <= j < k + 1 && (#[trigger] keys@[j])@ == x && !declared_names(inputs).contains(x),
            )));
        }
        k = k + 1;
    }
    proof {
        assert(values@ =~= filled.restrict(declared_names(inputs)));
    }
}

/// Brings every node's values in line with its definition (call when a
/// project is loaded): each node of a known definition, the sink aside,
/// gets the default of every input that is neither wired nor configured,
/// and loses the values of inputs its definition no longer declares.
pub fn normalize_node_inputs(graph: &mut EditorGraph, library: &NodeLibrary)
    requires
        old(graph).wf(),
    ensures
        final(graph).wf(),
        final(graph).wires@ == old(graph).wires@,
        final(graph).nodes@.len() == old(graph).nodes@.len(),
        forall|i: int|
            0 <= i < old(graph).nodes@.len() ==> {
                let (id, d) = old(graph).nodes@[i];
                let (id2, d2) = #[trigger] final(graph).nodes@[i];
                &&& id2 == id
                &&& d2.definition_name == d.definition_name
                &&& d2.engine_node_id == d.engine_node_id
                &&& d2.input_values@ == if is_sink(d) {
                    d.input_values@
                } else {
                    match find_def(library@, d.definition_name@) {
                        Some(def) => normalized_values(
                            d.input_values@,
                            def.node.inputs@,
                            wired_input_names(old(graph).wires@, id, def.node.inputs@),
                        ),
                        None => d.input_values@,
                    }
                }
            },
{
    let ghost start = graph.nodes@;
    let n = graph.nodes.len();
    let mut i: usize = 0;
    while i < n
        invariant
            n == start.len(),
            graph.nodes@.len() == n,
            graph.wires@ == old(graph).wires@,
            start == old(graph).nodes@,
            old(graph).wf(),
            i <= n,
            forall|j: int| i <= j < n ==> graph.nodes@[j] == start[j],
            forall|j: int|
                0 <= j < i ==> {
                    let (id, d) = start[j];
                    let (id2, d2) = #[trigger] graph.nodes@[j];
                    &&& id2 == id
                    &&& d2.definition_name == d.definition_name
                    &&& d2.engine_node_id == d.engine_node_id
                    &&& d2.input_values@ == if is_sink(d) {
                        d.input_values@
                    } else {
                        match find_def(library@, d.definition_name@) {
                            Some(def) => normalized_values(
                                d.input_values@,
                                def.node.inputs@,
                                wired_input_names(old(graph).wires@, id, def.node.inputs@),
                            ),
                            None => d.input_values@,
                        }
                    }
                },
        decreases n - i,
    {
        let is_sink_node = text_eq(graph.nodes[i].1.definition_name.as_str(), VIRTUAL_OUTPUT_SINK_NAME);
        if !is_sink_node {
            let id = graph.nodes[i].0;
            match library.get_definition(graph.nodes[i].1.definition_name.as_str()) {
                Some(def) => {
                    let wired = wired_names(graph, id, def);
                    proof {
                        assert(crate::sorted::views(wired@).to_set() =~= wired_input_names(
                            graph.wires@,
                            id,
                            def.node.inputs@,
                        ));
                    }
                    let (nid, mut data) = graph.nodes.remove(i);
                    normalize_values(&mut data.input_values, def, &wired);
                    graph.nodes.insert(i, (nid, data));
                },
                None => {},
            }
        }
        i = i + 1;
    }
    proof {
        assert forall|k: int| 0 <= k < graph.wires@.len() implies has_node(graph.nodes@, (#[trigger] graph.wires@[k]).from.node)
            && has_node(graph.nodes@, graph.wires@[k].to.node) by {
            let a = choose|a: int| 0 <= a < start.len() && (#[trigger] start[a]).0 == graph.wires@[k].from.node;
            assert(graph.nodes@[a].0 == start[a].0);
            let b = choose|b: int| 0 <= b < start.len() && (#[trigger] start[b]).0 == graph.wires@[k].to.node;
            assert(graph.nodes@[b].0 == start[b].0);
        }
        assert forall|a: int, b: int|
            0 <= a < graph.nodes@.len() && 0 <= b < graph.nodes@.len() && a != b implies (
            #[trigger] graph.nodes@[a]).0 != (#[trigger] graph.nodes@[b]).0 by {
            assert(graph.nodes@[a].0 == start[a].0);
            assert(graph.nodes@[b].0 == start[b].0);
        }
    }
}

/// Errors to show in popups: the graph's current errors that were not
/// already shown for the previous graph, in order.
pub fn new_graph_errors(last: &Vec<String>, errors: &Vec<String>) -> (r: Vec<String>)
    ensures
        crate::sorted::views(r@) == crate::sorted::views(errors@).filter(
            |e: Seq<char>| !crate::sorted::views(last@).contains(e),
        ),
{
    let ghost es = crate::sorted::views(errors@);
    let ghost keep = |e: Seq<char>| !crate::sorted::views(last@).contains(e);
    let mut r: Vec<String> = Vec::new();
    let mut i: usize = 0;
    while i < errors.len()
        invariant
            es == crate::sorted::views(errors@),
            keep == (|e: Seq<char>| !crate::sorted::views(last@).contains(e)),
            i <= errors@.len(),
            crate::sorted::views(r@) == es.take(i as int).filter(keep),
        decreases errors.len() - i,
    {
        proof {
            crate::library::lemma_filter_take_step(es, keep, i as int);
        }
        let ghost prev = r@;
        if !has_name_in(last, errors[i].as_str()) {
            r.push(errors[i].clone());
            assert(crate::sorted::views(r@) =~= crate::sorted::views(prev).push(es[i as int]));
        }
        i = i + 1;
    }
    proof {
        crate::library::lemma_filter_take_all(es, keep);
    }
    r
}

/// The node whose output the preview follows: the last selected node.
pub fn preview_selection(selected: &Vec<SnarlNodeId>) -> (r: Option<SnarlNodeId>)
    ensures
        r == (if selected@.len() == 0 {
            None
        } else {
            Some(selected@.last())
        }),
{
    if selected.len() == 0 {
        None
    } else {
        Some(selected[selected.len() - 1])
    }
}

/// Whether to warn that the selected node is outside the output's graph,
/// and which node was last warned about afterwards: a warning is given
/// once per selected node, while previewing the selection is off.
pub fn outside_selection_warning(
    preview_selected: bool,
    selected: Option<EngineNodeId>,
    output: Option<EngineNodeId>,
    selected_in_output_graph: bool,
    last_warned: Option<EngineNodeId>,
) -> (r: (bool, Option<EngineNodeId>))
    ensures
        ({
            let cond = !preview_selected && selected is Some && output is Some && !selected_in_output_graph
                && last_warned != selected;
            &&& r.0 == cond
            &&& r.1 == (if cond {
                selected
            } else {
                None
            })
        }),
{
    if !preview_selected && selected.is_some() && output.is_some() && !selected_in_output_graph && last_warned != selected {
        (true, selected)
    } else {
        (false, None)
    }
}

/// The node the engine outputs: the selection while previewing it, else
/// the node wired into the sink.
pub fn engine_output_target(preview_target: Option<EngineNodeId>, output_source: Option<EngineNodeId>) -> (r: Option<EngineNodeId>)
    ensures
        r == (if preview_target is Some {
            preview_target
        } else {
            output_source
        }),
{
    match preview_target {
        Some(t) => Some(t),
        None => output_source,
    }
}

/// Where the pointer is over a borderless window, for resizing.
#[derive(Clone, Copy, Debug, PartialEq, Eq, Structural)]
pub enum HitZone {
    /// Leave the answer to the window's own procedure.
    Client,
    TopLeft,
    TopRight,
    BottomLeft,
    BottomRight,
    Left,
    Right,
    Top,
    Bottom,
}

/// The width of the resize border, in pixels.
pub const RESIZE_BORDER: i64 = 8;

/// A 16-bit word read as a signed number.
pub open spec fn signed16(w: int) -> int {
    if w >= 32768 {
        w - 65536
    } else {
        w
    }
}

/// The pointer position a hit-test message carries: the signed low and
/// high 16-bit words of its parameter.
pub fn pointer_position(lparam: i64) -> (r: (i32, i32))
    ensures
        r.0 as int == signed16((lparam & 0xFFFF) as int),
        r.1 as int == signed16(((lparam >> 16) & 0xFFFF) as int),
{
    let lo = lparam & 0xFFFF;
    let hi = (lparam >> 16) & 0xFFFF;
    assert(0 <= lo <= 0xFFFF) by (bit_vector)
        requires
            lo == lparam & 0xFFFF,
    ;
    assert(0 <= hi <= 0xFFFF) by (bit_vector)
        requires
            hi == (lparam >> 16) & 0xFFFF,
    ;
    let x: i32 = if lo >= 32768 { (lo - 65536) as i32 } else { lo as i32 };
    let y: i32 = if hi >= 32768 { (hi - 65536) as i32 } else { hi as i32 };
    (x, y)
}

/// The resize zone of a pointer at (`x`, `y`) over a window spanning
/// `left..right` and `top..bottom`: corners first, then edges, within
/// [RESIZE_BORDER] pixels of the frame.
pub open spec fn hit_zone_spec(x: int, y: int, left: int, top: int, right: int, bottom: int) -> HitZone {
    let in_left = x - left < RESIZE_BORDER;
    let in_right = right - x < RESIZE_BORDER;
    let in_top = y - top < RESIZE_BORDER;
    let in_bottom = bottom - y < RESIZE_BORDER;
    if in_left && in_top {
        HitZone::TopLeft
    } else if in_right && in_top {
        HitZone::TopRight
    } else if in_left && in_bottom {
        HitZone::BottomLeft
    } else if in_right && in_bottom {
        HitZone::BottomRight
    } else if in_left {
        HitZone::Left
    } else if in_right {
        HitZone::Right
    } else if in_top {
        HitZone::Top
    } else if in_bottom {
        HitZone::Bottom
    } else {
        HitZone::Client
    }
}

/// See [hit_zone_spec].
pub fn hit_zone(x: i32, y: i32, left: i32, top: i32, right: i32, bottom: i32) -> (r: HitZone)
    ensures
        r == hit_zone_spec(x as int, y as int, left as int, top as int, right as int, bottom as int),
{
    let in_left = (x as i64) - (left as i64) < RESIZE_BORDER;
    let in_right = (right as i64) - (x as i64) < RESIZE_BORDER;
    let in_top = (y as i64) - (top as i64) < RESIZE_BORDER;
    let in_bottom = (bottom as i64) - (y as i64) < RESIZE_BORDER;
    if in_left && in_top {
        HitZone::TopLeft
    } else if in_right && in_top {
        HitZone::TopRight
    } else if in_left && in_bottom {
        HitZone::BottomLeft
    } else if in_right && in_bottom {
        HitZone::BottomRight
    } else if in_left {
        HitZone::Left
    } else if in_right {
        HitZone::Right
    } else if in_top {
        HitZone::Top
    } else if in_bottom {
        HitZone::Bottom
    } else {
        HitZone::Client
    }
}

} // verus!
