use substrate::bridge::{playback_command, EngineCommand, EngineState};
use substrate::editor::{
    engine_output_target, file_dialog_key, file_filter_for, hit_zone, outside_selection_warning, pointer_position,
    preview_selection, Command, FileFilter, HitZone, InputWidgetState, TitleBarArea, TitleBarInput, ToolBar,
    ViewportCommand, RESIZE_BORDER,
};
use substrate::graph::SnarlNodeId;
use substrate::library::NodeLibrary;
use substrate::output_view::{OutputDisplay, OutputEvent, OutputPanel, TextureKey};
use substrate::schema::{BuiltInHandler, EngineNode, EngineNodeId, NodeDefinition, NodeExecutionPlan};
use substrate::session::{
    close_decision, file_explorer_program, prompt_outcome, repaint_delay_ms, save_on_unexpected_exit, CloseDecision,
    EditTracker, ErrorQueue, HostOs, PromptChoice,
};

fn ui_input() -> TitleBarInput {
    TitleBarInput {
        spacer_double_clicked: false,
        spacer_drag_started: false,
        pointer_down: false,
        maximized: false,
        close_clicked: false,
        maximize_clicked: false,
        minimize_clicked: false,
    }
}

fn ui_def(name: &str, handler: BuiltInHandler) -> NodeDefinition {
    NodeDefinition {
        node: EngineNode {
            name: name.to_string(),
            inputs: vec![],
            outputs: vec![],
            executor: NodeExecutionPlan::BuiltIn(handler),
            short_description: String::new(),
            long_description: String::new(),
            category: String::new(),
            subcategories: vec![],
            search_keywords: vec![],
        },
        shader_path: None,
        folder_path: String::new(),
    }
}

#[test]
fn toolbar_queues_save_commands() {
    let mut bar = ToolBar::new();
    assert_eq!(bar.save.label_text(), "Save");
    assert!(bar.drain_pending().is_empty());
    bar.click_save();
    bar.click_save();
    assert_eq!(bar.drain_pending(), vec![Command::SaveProject, Command::SaveProject]);
    assert!(bar.drain_pending().is_empty());
}

#[test]
fn title_bar_buttons_and_drag() {
    let mut area = TitleBarArea::new();
    area.toolbar_mut().click_save();
    assert_eq!(area.toolbar.drain_pending(), vec![Command::SaveProject]);

    let mut input = ui_input();
    input.spacer_drag_started = true;
    input.pointer_down = true;
    let out = area.step(input);
    assert_eq!(out.commands, vec![ViewportCommand::StartDrag]);
    assert!(out.default_cursor);
    assert!(area.dragging);

    let mut input = ui_input();
    input.pointer_down = true;
    assert!(area.step(input).default_cursor);

    let out = area.step(ui_input());
    assert!(!out.default_cursor);
    assert!(!area.dragging);

    let mut input = ui_input();
    input.maximized = true;
    input.spacer_double_clicked = true;
    input.close_clicked = true;
    input.minimize_clicked = true;
    let out = area.step(input);
    assert_eq!(
        out.commands,
        vec![ViewportCommand::Maximized(false), ViewportCommand::Close, ViewportCommand::Minimized(true)]
    );
    assert!(out.shows_restore);

    let mut input = ui_input();
    input.maximize_clicked = true;
    assert_eq!(area.step(input).commands, vec![ViewportCommand::Maximized(true)]);
}

#[test]
fn file_pickers_filter_by_node() {
    let mut lib = NodeLibrary::new();
    lib.insert_definition(ui_def("Video", BuiltInHandler::VideoSource));
    lib.insert_definition(ui_def("Image", BuiltInHandler::ImageSource));
    lib.insert_definition(ui_def("Midi", BuiltInHandler::MidiSource));
    assert_eq!(file_filter_for(&lib, "Video"), FileFilter::Video);
    assert_eq!(file_filter_for(&lib, "Image"), FileFilter::Image);
    assert_eq!(file_filter_for(&lib, "Midi"), FileFilter::Any);
    assert_eq!(file_filter_for(&lib, "Nope"), FileFilter::Any);
}

#[test]
fn one_picker_per_input() {
    let key = file_dialog_key(3, "Path");
    assert_eq!(key, "NodeId(3):Path");
    let mut state = InputWidgetState::new();
    assert!(!state.is_pending(&key));
    assert!(state.open(key.clone()));
    assert!(state.is_pending(&key));
    assert!(!state.open(key.clone()));
    assert!(state.open(file_dialog_key(4, "Path")));
    state.close(&key);
    assert!(!state.is_pending(&key));
    assert!(state.is_pending("NodeId(4):Path"));
}

#[test]
fn preview_follows_last_selection() {
    assert_eq!(preview_selection(&vec![]), None);
    assert_eq!(preview_selection(&vec![SnarlNodeId(1), SnarlNodeId(5)]), Some(SnarlNodeId(5)));
    assert_eq!(engine_output_target(Some(EngineNodeId(2)), Some(EngineNodeId(9))), Some(EngineNodeId(2)));
    assert_eq!(engine_output_target(None, Some(EngineNodeId(9))), Some(EngineNodeId(9)));
}

#[test]
fn outside_selection_warned_once() {
    let sel = Some(EngineNodeId(4));
    let out = Some(EngineNodeId(1));
    assert_eq!(outside_selection_warning(false, sel, out, false, None), (true, sel));
    assert_eq!(outside_selection_warning(false, sel, out, false, sel), (false, None));
    assert_eq!(outside_selection_warning(false, sel, out, true, None), (false, None));
    assert_eq!(outside_selection_warning(true, sel, out, false, None), (false, None));
    assert_eq!(outside_selection_warning(false, None, out, false, None), (false, None));
}

#[test]
fn pointer_words_are_signed() {
    assert_eq!(pointer_position(0x0014_000A), (10, 20));
    assert_eq!(pointer_position(0xFFFE_FFFF), (-1, -2));
    assert_eq!(pointer_position(0x7FFF_8000), (-32768, 32767));
}

#[test]
fn resize_zones() {
    assert_eq!(RESIZE_BORDER, 8);
    let (l, t, r, b) = (100, 100, 500, 400);
    assert_eq!(hit_zone(101, 101, l, t, r, b), HitZone::TopLeft);
    assert_eq!(hit_zone(499, 102, l, t, r, b), HitZone::TopRight);
    assert_eq!(hit_zone(103, 399, l, t, r, b), HitZone::BottomLeft);
    assert_eq!(hit_zone(495, 395, l, t, r, b), HitZone::BottomRight);
    assert_eq!(hit_zone(107, 200, l, t, r, b), HitZone::Left);
    assert_eq!(hit_zone(108, 200, l, t, r, b), HitZone::Client);
    assert_eq!(hit_zone(493, 200, l, t, r, b), HitZone::Right);
    assert_eq!(hit_zone(300, 105, l, t, r, b), HitZone::Top);
    assert_eq!(hit_zone(300, 397, l, t, r, b), HitZone::Bottom);
    assert_eq!(hit_zone(300, 250, l, t, r, b), HitZone::Client);
}

#[test]
fn edit_tracking() {
    let mut t = EditTracker::new();
    assert!(!t.has_only_view_unsaved_changes(Some(1)));
    assert_eq!(t.saved(Some(1), Some(2)), Err("No project is currently open".to_string()));
    t.set_project(Some(10), Some(20));
    t.check_hash_changed(10);
    assert!(!t.edited);
    t.check_hash_changed(11);
    assert!(t.edited);
    assert!(t.has_only_view_unsaved_changes(Some(20)));
    assert!(!t.has_only_view_unsaved_changes(Some(21)));
    assert_eq!(t.saved(Some(11), Some(21)), Ok(()));
    assert!(!t.edited);
    assert_eq!(t.saved_hash, Some(11));
    t.mark_edited();
    assert!(t.edited);
}

#[test]
fn closing_asks_only_for_content_changes() {
    assert_eq!(close_decision(true, true, true, false), CloseDecision::Close);
    assert_eq!(close_decision(false, false, true, false), CloseDecision::Close);
    assert_eq!(close_decision(false, true, false, false), CloseDecision::Close);
    assert_eq!(close_decision(false, true, true, true), CloseDecision::SaveAndClose);
    assert_eq!(close_decision(false, true, true, false), CloseDecision::AskUser);
    assert_eq!(prompt_outcome(PromptChoice::SaveAndExit), (true, true));
    assert_eq!(prompt_outcome(PromptChoice::DiscardAndExit), (false, true));
    assert_eq!(prompt_outcome(PromptChoice::Cancel), (false, false));
    assert!(save_on_unexpected_exit(false, true));
    assert!(!save_on_unexpected_exit(true, true));
    assert!(!save_on_unexpected_exit(false, false));
}

#[test]
fn repaint_schedule() {
    assert_eq!(repaint_delay_ms(false, true), None);
    assert_eq!(repaint_delay_ms(true, true), Some(0));
    assert_eq!(repaint_delay_ms(true, false), Some(50));
}

#[test]
fn error_popups_one_at_a_time() {
    let mut q = ErrorQueue::new();
    assert!(q.current().is_none());
    q.push("first".to_string());
    assert_eq!(q.remaining_label(), "0 additional errors remaining");
    q.push("second".to_string());
    assert_eq!(q.remaining_label(), "1 additional error remaining");
    q.push("third".to_string());
    assert_eq!(q.current().map(|s| s.as_str()), Some("first"));
    assert_eq!(q.remaining_label(), "2 additional errors remaining");
    q.acknowledge();
    assert_eq!(q.current().map(|s| s.as_str()), Some("second"));
    q.acknowledge();
    q.acknowledge();
    q.acknowledge();
    assert!(q.current().is_none());
}

#[test]
fn explorer_programs() {
    assert_eq!(file_explorer_program(HostOs::Windows), "explorer");
    assert_eq!(file_explorer_program(HostOs::MacOs), "open");
    assert_eq!(file_explorer_program(HostOs::Linux), "xdg-open");
}

#[test]
fn output_panel_follows_events() {
    let mut p = OutputPanel::new();
    assert_eq!(p.display(), OutputDisplay::NoOutput);
    assert!(!p.apply(OutputEvent::StreamLoading));
    assert_eq!(p.display(), OutputDisplay::Loading);
    let frame = OutputEvent::FrameReady { width: 640, height: 480, view: 1, renderer: 2 };
    assert!(p.apply(frame));
    assert_eq!(p.display(), OutputDisplay::Frame);
    assert_eq!((p.width, p.height), (640, 480));
    assert_eq!(p.registered, Some(TextureKey { view: 1, renderer: 2 }));
    assert!(!p.apply(frame));
    assert!(p.apply(OutputEvent::FrameReady { width: 640, height: 480, view: 3, renderer: 2 }));
    assert!(!p.apply(OutputEvent::Other));
    assert_eq!(p.display(), OutputDisplay::Frame);
    p.apply(OutputEvent::StreamLoading);
    assert!(!p.apply(OutputEvent::ExecutionError));
    assert_eq!(p.display(), OutputDisplay::NoOutput);
}

#[test]
fn engine_commands_need_a_running_engine() {
    let mut state = EngineState::new();
    assert_eq!(state.send(EngineCommand::PlayStreams), Err("engine not ready".to_string()));
    let (tx, rx) = std::sync::mpsc::channel();
    let mut state = EngineState::new();
    state.command_sender = Some(tx);
    assert_eq!(state.send(EngineCommand::PauseStreams), Ok(()));
    assert!(matches!(rx.recv(), Ok(EngineCommand::PauseStreams)));
    drop(rx);
    assert_eq!(state.send(EngineCommand::ClearManualFps), Err("engine disconnected".to_string()));
}

#[test]
fn playback_changes_send_one_command() {
    assert!(playback_command(true, true).is_none());
    assert!(playback_command(false, false).is_none());
    assert!(matches!(playback_command(false, true), Some(EngineCommand::PlayStreams)));
    assert!(matches!(playback_command(true, false), Some(EngineCommand::PauseStreams)));
}
