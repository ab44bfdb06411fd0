use clipray::database::DatabaseManager;
use clipray::types::{AppConfig, EntryKind, ThemeConfig, ThemePreset};

/// Three entries as several tests expect them: two texts around one image,
/// with the newest text pinned.
fn setup_test_data(db: &mut DatabaseManager) {
    db.add_clipboard_item("test content 1", EntryKind::from_str("text").unwrap())
        .unwrap();
    db.add_clipboard_item("test image data", EntryKind::from_str("image").unwrap())
        .unwrap();
    let id = db
        .add_clipboard_item("test content 2", EntryKind::from_str("text").unwrap())
        .unwrap();
    db.toggle_pin(id).unwrap();
}

#[test]
fn test_new_test_database() {
    let db = DatabaseManager::new();

    // Check the first-run defaults
    let config = db.get_config().unwrap();
    assert_eq!(config.max_history_count, 50);
    assert_eq!(config.hotkey, "CommandOrControl+Shift+V");
    assert_eq!(config.theme.preset, ThemePreset::Default);
}

#[test]
fn test_add_clipboard_item() {
    let mut db = DatabaseManager::new();

    let result = db.add_clipboard_item("test content", EntryKind::from_str("text").unwrap());
    assert!(result.is_ok());

    let history = db.get_clipboard_history().unwrap();
    assert_eq!(history.len(), 1);
    assert_eq!(history[0].content, "test content");
    assert_eq!(history[0].kind.as_str(), "text");
    assert!(!history[0].pinned);
}

#[test]
fn test_add_duplicate_content() {
    let mut db = DatabaseManager::new();

    // Add same content twice
    db.add_clipboard_item("duplicate content", EntryKind::from_str("text").unwrap())
        .unwrap();
    db.add_clipboard_item("duplicate content", EntryKind::from_str("text").unwrap())
        .unwrap();

    let history = db.get_clipboard_history().unwrap();
    assert_eq!(history.len(), 1); // Should only have one item
    assert_eq!(history[0].content, "duplicate content");
}

#[test]
fn test_get_clipboard_history() {
    let mut db = DatabaseManager::new();
    setup_test_data(&mut db);

    let history = db.get_clipboard_history().unwrap();
    assert_eq!(history.len(), 3);

    // Check if pinned items come first
    assert!(history[0].pinned);
    assert_eq!(history[0].content, "test content 2");

    // Check ordering by recency for non-pinned items
    assert!(!history[1].pinned);
    assert_eq!(history[1].content, "test image data"); // Latest non-pinned
    assert!(!history[2].pinned);
    assert_eq!(history[2].content, "test content 1"); // Oldest non-pinned
}

#[test]
fn test_delete_clipboard_item() {
    let mut db = DatabaseManager::new();
    setup_test_data(&mut db);

    let history_before = db.get_clipboard_history().unwrap();
    let item_id = history_before[0].id;

    let result = db.delete_clipboard_item(item_id);
    assert!(result.is_ok());

    let history_after = db.get_clipboard_history().unwrap();
    assert_eq!(history_after.len(), history_before.len() - 1);
    assert!(!history_after.iter().any(|item| item.id == item_id));
}

#[test]
fn test_delete_nonexistent_item() {
    let mut db = DatabaseManager::new();

    let result = db.delete_clipboard_item(999); // Non-existent ID
    assert!(result.is_ok()); // Should not fail

    let history = db.get_clipboard_history().unwrap();
    assert_eq!(history.len(), 0);
}

#[test]
fn test_toggle_pin() {
    let mut db = DatabaseManager::new();
    setup_test_data(&mut db);

    let history_before = db.get_clipboard_history().unwrap();
    let unpinned_item = history_before.iter().find(|item| !item.pinned).unwrap();
    let item_id = unpinned_item.id;

    let result = db.toggle_pin(item_id);
    assert!(result.is_ok());

    let history_after = db.get_clipboard_history().unwrap();
    let updated_item = history_after
        .iter()
        .find(|item| item.id == item_id)
        .unwrap();
    assert!(updated_item.pinned);
}

#[test]
fn test_toggle_pin_twice() {
    let mut db = DatabaseManager::new();
    setup_test_data(&mut db);

    let history_before = db.get_clipboard_history().unwrap();
    let item = &history_before[0];
    let original_pinned = item.pinned;

    // Toggle twice
    db.toggle_pin(item.id).unwrap();
    db.toggle_pin(item.id).unwrap();

    let history_after = db.get_clipboard_history().unwrap();
    let updated_item = history_after.iter().find(|i| i.id == item.id).unwrap();
    assert_eq!(updated_item.pinned, original_pinned);
}

#[test]
fn test_max_history_limit() {
    let mut db = DatabaseManager::new();

    // Set limit to 2
    let config = AppConfig {
        max_history_count: 2,
        hotkey: "Ctrl+Shift+V".to_string(),
        theme: ThemeConfig {
            preset: ThemePreset::Default,
        },
    };
    db.update_config(&config).unwrap();

    // Add 3 items
    db.add_clipboard_item("item1", EntryKind::from_str("text").unwrap())
        .unwrap();
    db.add_clipboard_item("item2", EntryKind::from_str("text").unwrap())
        .unwrap();
    db.add_clipboard_item("item3", EntryKind::from_str("text").unwrap())
        .unwrap();

    let history = db.get_clipboard_history().unwrap();
    assert_eq!(history.len(), 2);
    assert_eq!(history[0].content, "item3"); // Latest first
    assert_eq!(history[1].content, "item2");
}

#[test]
fn test_pinned_items_not_deleted_by_limit() {
    let mut db = DatabaseManager::new();

    // Set limit to 1
    let config = AppConfig {
        max_history_count: 1,
        hotkey: "Ctrl+Shift+V".to_string(),
        theme: ThemeConfig {
            preset: ThemePreset::Default,
        },
    };
    db.update_config(&config).unwrap();

    // Add item and pin it
    db.add_clipboard_item("pinned item", EntryKind::from_str("text").unwrap())
        .unwrap();
    let history = db.get_clipboard_history().unwrap();
    let pinned_id = history[0].id;
    db.toggle_pin(pinned_id).unwrap();

    // Add new item
    db.add_clipboard_item("new item", EntryKind::from_str("text").unwrap())
        .unwrap();

    let final_history = db.get_clipboard_history().unwrap();
    // The read applies the limit, so it will only return 1 item,
    // but the pinned item still exists in storage and is not deleted
    assert_eq!(final_history.len(), 1);

    // Check that the pinned item is preserved (pinned entries come first)
    assert!(final_history[0].pinned);
    assert_eq!(final_history[0].content, "pinned item");

    // Verify that both items exist in storage by counting without limit
    assert_eq!(db.stored_count(), 2);
}

#[test]
fn test_config_management() {
    let mut db = DatabaseManager::new();

    // Check default config
    let config = db.get_config().unwrap();
    assert_eq!(config.max_history_count, 50);
    assert_eq!(config.hotkey, "CommandOrControl+Shift+V");
    assert_eq!(config.theme.preset, ThemePreset::Default);

    // Update config
    let new_config = AppConfig {
        max_history_count: 100,
        hotkey: "Ctrl+Alt+V".to_string(),
        theme: ThemeConfig {
            preset: ThemePreset::DeepPurple,
        },
    };

    let result = db.update_config(&new_config);
    assert!(result.is_ok());

    // Verify updated config
    let updated_config = db.get_config().unwrap();
    assert_eq!(updated_config.max_history_count, 100);
    assert_eq!(updated_config.hotkey, "Ctrl+Alt+V");
    assert_eq!(updated_config.theme.preset, ThemePreset::DeepPurple);
}

#[test]
fn test_get_hotkey() {
    let mut db = DatabaseManager::new();

    let hotkey = db.get_hotkey().unwrap();
    assert_eq!(hotkey, "CommandOrControl+Shift+V");

    // Update hotkey
    let config = AppConfig {
        max_history_count: 50,
        hotkey: "Ctrl+Shift+C".to_string(),
        theme: ThemeConfig {
            preset: ThemePreset::Default,
        },
    };
    db.update_config(&config).unwrap();

    let updated_hotkey = db.get_hotkey().unwrap();
    assert_eq!(updated_hotkey, "Ctrl+Shift+C");
}

#[test]
fn test_get_max_history_count() {
    let mut db = DatabaseManager::new();

    let count = db.get_max_history_count().unwrap();
    assert_eq!(count, 50);

    // Update count
    let config = AppConfig {
        max_history_count: 25,
        hotkey: "CommandOrControl+Shift+V".to_string(),
        theme: ThemeConfig {
            preset: ThemePreset::Default,
        },
    };
    db.update_config(&config).unwrap();

    let updated_count = db.get_max_history_count().unwrap();
    assert_eq!(updated_count, 25);
}

#[test]
fn test_get_theme() {
    let mut db = DatabaseManager::new();

    let theme = db.get_theme().unwrap();
    assert_eq!(theme.preset, ThemePreset::Default);

    // Update theme
    let config = AppConfig {
        max_history_count: 50,
        hotkey: "CommandOrControl+Shift+V".to_string(),
        theme: ThemeConfig {
            preset: ThemePreset::MidnightBlue,
        },
    };
    db.update_config(&config).unwrap();

    let updated_theme = db.get_theme().unwrap();
    assert_eq!(updated_theme.preset, ThemePreset::MidnightBlue);
}

#[test]
fn test_different_content_types() {
    let mut db = DatabaseManager::new();

    db.add_clipboard_item("text content", EntryKind::from_str("text").unwrap())
        .unwrap();
    db.add_clipboard_item("image data", EntryKind::from_str("image").unwrap())
        .unwrap();

    let history = db.get_clipboard_history().unwrap();
    assert_eq!(history.len(), 2);

    let text_item = history
        .iter()
        .find(|item| item.kind == EntryKind::Text)
        .unwrap();
    let image_item = history
        .iter()
        .find(|item| item.kind == EntryKind::Image)
        .unwrap();

    assert_eq!(text_item.content, "text content");
    assert_eq!(image_item.content, "image data");
}
