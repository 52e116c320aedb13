//! Tests of the components around the store: the item entity, settings,
//! export rendering, and the screen-state types.

use grimoire::ai_popup::{AiAction, AiPopupState};
use grimoire::category::Category;
use grimoire::edit_screen::{EditField, EditState};
use grimoire::export::ClaudeExporter;
use grimoire::item::{age_label, Item};
use grimoire::screens::{ConfirmDialog, HelpState, HistoryState, SearchState};
use grimoire::settings::SettingsStore;
use grimoire::settings_screen::{LlmProvider, SettingsField, SettingsState};
use grimoire::store::ItemVersion;

fn item(name: &str, category: Category, content: &str) -> Item {
    Item::new(name.to_string(), category, content.to_string())
}

#[test]
fn category_tokens_round_trip() {
    for c in Category::all() {
        assert_eq!(Category::from_str(c.as_str()), c);
    }
    assert_eq!(Category::from_str("AGENT"), Category::Agent);
    assert_eq!(Category::from_str("sKiLl"), Category::Skill);
    assert_eq!(Category::from_str("anything else"), Category::Prompt);
    assert_eq!(Category::Prompt.as_str(), "prompt");
    assert_eq!(Category::Command.display_name(), "Commands");
}

#[test]
fn category_field_rules() {
    assert_eq!(Category::Prompt.required_fields(), vec!["name", "content"]);
    assert_eq!(
        Category::Agent.required_fields(),
        vec!["name", "description", "content"]
    );
    assert_eq!(
        Category::Skill.optional_fields(),
        vec!["allowed_tools", "tags"]
    );
    assert_eq!(
        Category::Command.optional_fields(),
        vec![
            "description",
            "allowed_tools",
            "argument_hint",
            "model",
            "tags"
        ]
    );
}

#[test]
fn validate_reports_each_missing_field() {
    let blank = item(" ", Category::Agent, "");
    let errors = blank.validate().unwrap_err();
    assert_eq!(
        errors,
        vec![
            "Name is required".to_string(),
            "Content is required".to_string(),
            "Description is required for this category".to_string()
        ]
    );
    let mut ok = item("n", Category::Agent, "c");
    ok.description = Some("d".to_string());
    assert!(ok.validate().is_ok());
    // a blank description does not count as filled
    ok.description = Some("  ".to_string());
    assert!(ok.validate().is_err());
}

#[test]
fn tags_vec_trims_and_keeps_case() {
    let mut a = item("a", Category::Prompt, "c");
    a.tags = Some(" Go ,, rust , ".to_string());
    assert_eq!(a.tags_vec(), vec!["Go".to_string(), "rust".to_string()]);
    let b = item("b", Category::Prompt, "c");
    assert!(b.tags_vec().is_empty());
}

#[test]
fn age_label_wording() {
    assert_eq!(age_label(0), "just now");
    assert_eq!(age_label(59), "just now");
    assert_eq!(age_label(60), "1 minute ago");
    assert_eq!(age_label(3 * 60), "3 minutes ago");
    assert_eq!(age_label(3600), "1 hour ago");
    assert_eq!(age_label(7 * 3600), "7 hours ago");
    assert_eq!(age_label(86400), "1 day ago");
    assert_eq!(age_label(6 * 86400), "6 days ago");
    assert_eq!(age_label(30 * 86400), "4 weeks ago");
}

#[test]
fn settings_store_is_last_write_wins() {
    let mut s = SettingsStore::new();
    assert!(s.get("api_key").is_none());
    s.set("api_key", "SECRET-REDACTED").unwrap();
    assert_eq!(s.get("api_key"), Some("SECRET-REDACTED".to_string()));
    s.set("api_key", "other").unwrap();
    assert_eq!(s.get("api_key"), Some("other".to_string()));
    s.set("model", "m1").unwrap();
    assert_eq!(s.get("model"), Some("m1".to_string()));
    s.delete("api_key").unwrap();
    assert!(s.get("api_key").is_none());
    assert_eq!(s.get("model"), Some("m1".to_string()));
    // deleting an absent key is a no-op
    s.delete("api_key").unwrap();
}

#[test]
fn export_agent_front_matter() {
    let exporter = ClaudeExporter::new("/tmp/out", None);
    let mut a = item("helper", Category::Agent, "the body");
    a.description = Some("helps".to_string());
    a.model = Some("m1".to_string());
    let text = exporter.format_agent(&a);
    assert_eq!(
        text,
        "---\nname: helper\ndescription: helps\nmodel: m1\n---\n\nthe body"
    );
}

#[test]
fn export_command_without_metadata_is_bare_content() {
    let exporter = ClaudeExporter::new("/tmp/out", None);
    let c = item("cmd", Category::Command, "run it");
    assert_eq!(exporter.format_command(&c), "run it");
    let mut c2 = item("cmd2", Category::Command, "run it");
    c2.argument_hint = Some("<file>".to_string());
    assert_eq!(
        exporter.format_command(&c2),
        "---\nargument-hint: <file>\n---\n\nrun it"
    );
}

#[test]
fn export_skill_front_matter() {
    let exporter = ClaudeExporter::new("/tmp/out", None);
    let mut s = item("skill", Category::Skill, "steps");
    s.description = Some("what it does".to_string());
    s.allowed_tools = Some("Bash".to_string());
    assert_eq!(
        exporter.format_skill(&s),
        "---\nname: skill\ndescription: what it does\nallowed-tools: Bash\n---\n\nsteps"
    );
}

#[test]
fn exporter_expands_leading_tilde() {
    let with_home = ClaudeExporter::new("~/exports", Some("/home/me"));
    assert_eq!(with_home.base_path, "/home/me/exports");
    let without_home = ClaudeExporter::new("~/exports", None);
    assert_eq!(without_home.base_path, "~/exports");
    let absolute = ClaudeExporter::new("/srv/exports", Some("/home/me"));
    assert_eq!(absolute.base_path, "/srv/exports");
}

#[test]
fn confirm_dialogs() {
    let d = ConfirmDialog::delete("notes");
    assert_eq!(d.message, "Are you sure you want to delete 'notes'?");
    assert_eq!(d.confirm_label, "Delete");
    assert!(!d.selected);
    let mut d2 = ConfirmDialog::discard_changes();
    assert_eq!(d2.cancel_label, "Keep Editing");
    d2.toggle_selection();
    assert!(d2.selected);
}

#[test]
fn help_scrolling_stays_in_range() {
    let mut h = HelpState::default();
    h.max_scroll = 2;
    h.scroll_down();
    h.scroll_down();
    h.scroll_down();
    assert_eq!(h.scroll, 2);
    h.scroll_up();
    assert_eq!(h.scroll, 1);
    h.scroll_up();
    h.scroll_up();
    assert_eq!(h.scroll, 0);
}

#[test]
fn search_state_editing() {
    let mut s = SearchState::default();
    s.insert_char('h');
    s.insert_char('i');
    assert_eq!(s.query, "hi");
    assert_eq!(s.cursor_pos, 2);
    s.move_cursor_left();
    s.insert_char('a');
    assert_eq!(s.query, "hai");
    s.delete_char();
    assert_eq!(s.query, "hi");
    s.clear();
    assert_eq!(s.query, "");
    assert_eq!(s.cursor_pos, 0);
}

#[test]
fn search_state_selection_wraps() {
    let mut s = SearchState::default();
    s.results = vec![
        item("a", Category::Prompt, "1"),
        item("b", Category::Prompt, "2"),
    ];
    assert_eq!(s.selected_item().unwrap().name, "a");
    s.select_next();
    assert_eq!(s.selected_item().unwrap().name, "b");
    s.select_next();
    assert_eq!(s.selected_item().unwrap().name, "a");
    s.select_prev();
    assert_eq!(s.selected_item().unwrap().name, "b");
}

#[test]
fn history_state_selection_wraps() {
    let versions = vec![
        ItemVersion { version: 3, created_at: 30, is_current: true },
        ItemVersion { version: 2, created_at: 20, is_current: false },
        ItemVersion { version: 1, created_at: 10, is_current: false },
    ];
    let mut h = HistoryState::new(versions, "x".to_string());
    assert_eq!(h.selected_version().unwrap().version, 3);
    h.select_next();
    assert_eq!(h.selected_version().unwrap().version, 2);
    h.select_previous();
    h.select_previous();
    assert_eq!(h.selected_version().unwrap().version, 1);
    h.select_next();
    assert_eq!(h.selected_version().unwrap().version, 3);

    let empty = HistoryState::new(Vec::new(), "y".to_string());
    assert!(empty.selected_version().is_none());
}

#[test]
fn ai_popup_actions() {
    let mut p = AiPopupState::default();
    assert_eq!(p.selected_action(), AiAction::ImprovePrompt);
    assert!(!p.is_custom());
    p.select_prev();
    assert_eq!(p.selected_action(), AiAction::CustomRequest);
    assert!(p.is_custom());
    p.select_next();
    assert_eq!(p.selected_action(), AiAction::ImprovePrompt);
    p.insert_char('q');
    p.insert_char('?');
    assert_eq!(p.custom_input, "q?");
    p.delete_char();
    assert_eq!(p.custom_input, "q");
    p.clear();
    assert_eq!(p.custom_input, "");
    assert_eq!(AiAction::all().len(), 4);
    assert_eq!(AiAction::MakeConcise.label(), "Make it more concise");
    assert!(AiAction::ImprovePrompt.system_prompt().len() > 0);
    assert_eq!(AiAction::CustomRequest.system_prompt(), "");
}

#[test]
fn settings_screen_fields_and_mask() {
    let mut s = SettingsState::default();
    assert_eq!(s.provider, LlmProvider::Anthropic);
    assert_eq!(s.focused_field, SettingsField::Provider);
    s.next_field();
    assert_eq!(s.focused_field, SettingsField::ApiKey);
    s.insert_char('k');
    s.insert_char('1');
    assert_eq!(s.api_key, "k1");
    assert!(s.has_changes);
    s.insert_str("23\u{7}4");
    assert_eq!(s.api_key, "k1234");
    s.delete_char();
    assert_eq!(s.api_key, "k123");
    s.prev_field();
    assert_eq!(s.focused_field, SettingsField::Provider);

    assert_eq!(SettingsState::mask_key(""), "");
    assert_eq!(SettingsState::mask_key("short"), "*****");
    assert_eq!(SettingsState::mask_key("abcdefghijkl"), "abcd...ijkl");
}

#[test]
fn settings_provider_dropdown() {
    let mut s = SettingsState::default();
    s.open_provider_dropdown();
    assert!(s.show_provider_dropdown);
    assert_eq!(s.provider_dropdown_index, 0);
    s.dropdown_next();
    s.select_provider_from_dropdown();
    assert_eq!(s.provider, LlmProvider::OpenAI);
    assert!(!s.show_provider_dropdown);
    assert_eq!(LlmProvider::from_str("OPENAI"), LlmProvider::OpenAI);
    assert_eq!(LlmProvider::from_str("mystery"), LlmProvider::Anthropic);
    assert_eq!(LlmProvider::all().len(), 2);
    assert_eq!(LlmProvider::OpenAI.display_name(), "OpenAI");
}

#[test]
fn edit_field_order_depends_on_category() {
    assert_eq!(
        EditField::Tags.next(Category::Prompt),
        EditField::Description
    );
    assert_eq!(EditField::Tags.next(Category::Agent), EditField::Model);
    assert_eq!(EditField::Tags.next(Category::Skill), EditField::Tools);
    assert_eq!(
        EditField::Description.prev(Category::Prompt),
        EditField::Tags
    );
    assert_eq!(
        EditField::Description.prev(Category::Command),
        EditField::Tools
    );
}

#[test]
fn edit_state_typing_and_fields() {
    let mut e = EditState::new_item();
    assert!(e.is_new);
    e.insert_char('h');
    e.insert_char('i');
    assert_eq!(e.item.name, "hi");
    e.next_field();
    assert_eq!(e.focused_field, EditField::Category);
    e.next_field();
    assert_eq!(e.focused_field, EditField::Tags);
    e.insert_str("a, b");
    assert_eq!(e.item.tags, Some("a, b".to_string()));
    // clearing the tags text clears the field
    e.delete_char();
    e.delete_char();
    e.delete_char();
    e.delete_char();
    assert_eq!(e.item.tags, None);
}

#[test]
fn edit_state_cursor_moves_by_lines() {
    let existing = item("n", Category::Prompt, "alpha\nbe\ngamma");
    let mut e = EditState::edit_item(existing);
    assert_eq!(e.cursor_pos, 1);
    // jump to the content field and walk lines
    e.focused_field = EditField::Content;
    e.move_cursor_end();
    assert_eq!(e.cursor_pos, 14);
    e.move_cursor_up();
    // from the end of "gamma" to the end of "be"
    assert_eq!(e.cursor_pos, 8);
    e.move_cursor_up();
    // column capped by the shorter line kept from before
    assert_eq!(e.cursor_pos, 2);
    e.move_cursor_down();
    assert_eq!(e.cursor_pos, 8);
    e.move_cursor_down();
    assert_eq!(e.cursor_pos, 11);
    e.move_cursor_start();
    assert_eq!(e.cursor_pos, 0);
    e.move_cursor_right();
    assert_eq!(e.cursor_pos, 1);
    e.move_cursor_left();
    assert_eq!(e.cursor_pos, 0);
}

#[test]
fn edit_state_category_dropdown() {
    let mut e = EditState::new_item();
    e.open_category_dropdown();
    assert!(e.show_category_dropdown);
    e.dropdown_next();
    e.select_category_from_dropdown();
    assert_eq!(e.item.category, Category::Agent);
    assert!(!e.show_category_dropdown);
    e.dropdown_prev();
    assert_eq!(e.category_dropdown_index, 0);
}

#[test]
fn edit_state_tools_field_targets_category_slot() {
    let mut e = EditState::new_item();
    e.item.category = Category::Agent;
    e.focused_field = EditField::Tools;
    e.insert_char('T');
    assert_eq!(e.item.tools, Some("T".to_string()));
    assert_eq!(e.item.allowed_tools, None);

    let mut e2 = EditState::new_item();
    e2.item.category = Category::Skill;
    e2.focused_field = EditField::Tools;
    e2.insert_char('S');
    assert_eq!(e2.item.allowed_tools, Some("S".to_string()));
    assert_eq!(e2.item.tools, None);
}

#[test]
fn item_duplicate_is_field_for_field() {
    let mut a = item("n", Category::Skill, "c");
    a.description = Some("d".to_string());
    a.tags = Some("t".to_string());
    a.version = 4;
    a.id = Some(9);
    let b = a.duplicate();
    assert_eq!(a, b);
}

#[test]
fn updated_ago_wording_is_available() {
    let fresh = item("n", Category::Prompt, "c");
    assert_eq!(fresh.updated_ago(), "unknown");
    let mut persisted = item("n", Category::Prompt, "c");
    persisted.updated_at = Some(0);
    // a concrete reading of the clock still yields one of the age wordings
    assert!(persisted.updated_ago().ends_with("ago") || persisted.updated_ago() == "just now");
}

#[test]
fn settings_field_cycle_is_closed() {
    let mut f = SettingsField::Provider;
    for _ in 0..4 {
        f = f.next();
    }
    assert_eq!(f, SettingsField::Provider);
    assert_eq!(SettingsField::Model.prev(), SettingsField::ApiKey);
}

#[test]
fn edit_state_forward_deletion_and_cursor_clamp() {
    let mut e = EditState::edit_item(item("abc", Category::Prompt, "c"));
    assert_eq!(e.cursor_pos, 3);
    e.move_cursor_right();
    assert_eq!(e.cursor_pos, 3);
    e.move_cursor_start();
    e.delete_char_forward();
    assert_eq!(e.item.name, "bc");
    e.delete_char();
    assert_eq!(e.item.name, "bc");
}

#[test]
fn ai_popup_spinner_and_tick() {
    let mut p = AiPopupState::default();
    p.tick_loading();
    assert_eq!(p.loading_tick, 0);
    p.is_loading = true;
    for _ in 0..5 {
        assert!(!p.loading_spinner().is_empty());
        p.tick_loading();
    }
    assert_eq!(p.loading_tick, 1);
}

#[test]
fn search_cursor_clamps_to_query_end() {
    let mut s = SearchState::default();
    s.insert_char('a');
    s.move_cursor_right();
    assert_eq!(s.cursor_pos, 1);
    s.move_cursor_left();
    s.move_cursor_left();
    assert_eq!(s.cursor_pos, 0);
}

#[test]
fn ai_popup_stepping_is_modular_from_any_state() {
    let mut p = AiPopupState::default();
    p.selected_action = 5;
    p.select_next();
    assert_eq!(p.selected_action, 2);
    p.selected_action = 7;
    p.select_prev();
    assert_eq!(p.selected_action, 2);
    p.is_loading = true;
    p.loading_tick = 9;
    p.tick_loading();
    assert_eq!(p.loading_tick, 2);
}

#[test]
fn settings_round_trip_on_an_existing_key() {
    let mut s = SettingsStore::new();
    s.set("export_path", "/a").unwrap();
    s.set("export_path", "/b").unwrap();
    assert_eq!(s.get("export_path"), Some("/b".to_string()));
}
