use clipray::database::DatabaseManager;
use clipray::types::{AppConfig, EntryKind, ThemeConfig, ThemePreset};

#[test]
fn test_complete_workflow_add_pin_delete() {
    let mut db = DatabaseManager::new();

    // Test adding items
    db.add_clipboard_item("integration test 1", EntryKind::from_str("text").unwrap())
        .unwrap();
    db.add_clipboard_item("integration test 2", EntryKind::from_str("image").unwrap())
        .unwrap();

    let history = db.get_clipboard_history().unwrap();
    assert_eq!(history.len(), 2);

    // Test pinning
    let item_id = history[0].id;
    db.toggle_pin(item_id).unwrap();

    let updated_history = db.get_clipboard_history().unwrap();
    let pinned_item = updated_history
        .iter()
        .find(|item| item.id == item_id)
        .unwrap();
    assert!(pinned_item.pinned);

    // Test deletion
    db.delete_clipboard_item(item_id).unwrap();
    let final_history = db.get_clipboard_history().unwrap();
    assert_eq!(final_history.len(), 1);
}

#[test]
fn test_config_update_and_persistence() {
    let mut db = DatabaseManager::new();

    // Test default config
    let config = db.get_config().unwrap();
    assert_eq!(config.max_history_count, 50);
    assert_eq!(config.theme.preset, ThemePreset::Default);

    // Test config update
    let new_config = AppConfig {
        max_history_count: 30,
        hotkey: "Ctrl+Alt+V".to_string(),
        theme: ThemeConfig {
            preset: ThemePreset::DeepPurple,
        },
    };

    db.update_config(&new_config).unwrap();

    let updated_config = db.get_config().unwrap();
    assert_eq!(updated_config.max_history_count, 30);
    assert_eq!(updated_config.hotkey, "Ctrl+Alt+V");
    assert_eq!(updated_config.theme.preset, ThemePreset::DeepPurple);
}

#[test]
fn test_history_limit_enforcement() {
    let mut db = DatabaseManager::new();

    // Set history limit to 3
    let config = AppConfig {
        max_history_count: 3,
        hotkey: "Ctrl+Shift+V".to_string(),
        theme: ThemeConfig {
            preset: ThemePreset::Default,
        },
    };
    db.update_config(&config).unwrap();

    // Add 5 items
    for i in 1..=5 {
        db.add_clipboard_item(
            &format!("item {}", i),
            EntryKind::from_str("text").unwrap(),
        )
        .unwrap();
    }

    let history = db.get_clipboard_history().unwrap();
    assert_eq!(history.len(), 3);

    // Check that the latest items are kept
    assert_eq!(history[0].content, "item 5");
    assert_eq!(history[1].content, "item 4");
    assert_eq!(history[2].content, "item 3");
}

#[test]
fn test_pinned_items_survive_history_limit() {
    let mut db = DatabaseManager::new();

    // Set history limit to 1
    let config = AppConfig {
        max_history_count: 1,
        hotkey: "Ctrl+Shift+V".to_string(),
        theme: ThemeConfig {
            preset: ThemePreset::Default,
        },
    };
    db.update_config(&config).unwrap();

    // Add and pin first item
    db.add_clipboard_item("pinned item", EntryKind::from_str("text").unwrap())
        .unwrap();
    let history = db.get_clipboard_history().unwrap();
    let pinned_id = history[0].id;
    db.toggle_pin(pinned_id).unwrap();

    // Add more items
    db.add_clipboard_item("item 2", EntryKind::from_str("text").unwrap())
        .unwrap();
    db.add_clipboard_item("item 3", EntryKind::from_str("text").unwrap())
        .unwrap();

    let final_history = db.get_clipboard_history().unwrap();

    // The read applies the limit, so it will only return 1 item,
    // but the pinned item still exists in storage and is not deleted
    assert_eq!(final_history.len(), 1);

    // Pinned item comes first (pinned entries sort before unpinned ones)
    assert!(final_history[0].pinned);
    assert_eq!(final_history[0].content, "pinned item");
}

#[test]
fn test_duplicate_content_replacement() {
    let mut db = DatabaseManager::new();

    // Add same content multiple times
    db.add_clipboard_item("duplicate", EntryKind::from_str("text").unwrap())
        .unwrap();
    db.add_clipboard_item("other content", EntryKind::from_str("text").unwrap())
        .unwrap();
    db.add_clipboard_item("duplicate", EntryKind::from_str("text").unwrap())
        .unwrap(); // Should replace the first one

    let history = db.get_clipboard_history().unwrap();
    assert_eq!(history.len(), 2);

    // "duplicate" should be at the top as it was added last
    assert_eq!(history[0].content, "duplicate");
    assert_eq!(history[1].content, "other content");
}

#[test]
fn test_mixed_content_types_handling() {
    let mut db = DatabaseManager::new();

    db.add_clipboard_item("text content", EntryKind::from_str("text").unwrap())
        .unwrap();
    db.add_clipboard_item("image data", EntryKind::from_str("image").unwrap())
        .unwrap();
    db.add_clipboard_item("another text", EntryKind::from_str("text").unwrap())
        .unwrap();

    let history = db.get_clipboard_history().unwrap();
    assert_eq!(history.len(), 3);

    // Check content types
    let text_items: Vec<_> = history
        .iter()
        .filter(|item| item.kind == EntryKind::Text)
        .collect();
    let image_items: Vec<_> = history
        .iter()
        .filter(|item| item.kind == EntryKind::Image)
        .collect();

    assert_eq!(text_items.len(), 2);
    assert_eq!(image_items.len(), 1);
}

#[test]
fn test_theme_configuration_changes() {
    let mut db = DatabaseManager::new();

    // Test all theme presets
    let themes = vec![
        ThemePreset::Default,
        ThemePreset::PurpleGradient,
        ThemePreset::DeepPurple,
        ThemePreset::MidnightBlue,
    ];

    for theme in themes {
        let config = AppConfig {
            max_history_count: 50,
            hotkey: "Ctrl+Shift+V".to_string(),
            theme: ThemeConfig {
                preset: theme.clone(),
            },
        };

        db.update_config(&config).unwrap();

        let updated_config = db.get_config().unwrap();
        assert_eq!(updated_config.theme.preset, theme);
    }
}

#[test]
fn test_empty_database_operations() {
    let mut db = DatabaseManager::new();

    let history = db.get_clipboard_history().unwrap();
    assert_eq!(history.len(), 0);

    // Test operations on empty store
    let result = db.delete_clipboard_item(1);
    assert!(result.is_ok());

    let result = db.toggle_pin(1);
    assert!(result.is_ok());
}

#[test]
fn test_large_content_storage() {
    let mut db = DatabaseManager::new();

    // Test with large content
    let large_content = "a".repeat(10000);
    db.add_clipboard_item(&large_content, EntryKind::from_str("text").unwrap())
        .unwrap();

    let history = db.get_clipboard_history().unwrap();
    assert_eq!(history.len(), 1);
    assert_eq!(history[0].content.len(), 10000);
    assert_eq!(history[0].content, large_content);
}

#[test]
fn test_special_characters_support() {
    let mut db = DatabaseManager::new();

    // Test with special characters
    let special_content = "Hello ‰∏ñÁïå! üåç @#$%^&*()";
    db.add_clipboard_item(special_content, EntryKind::from_str("text").unwrap())
        .unwrap();

    let history = db.get_clipboard_history().unwrap();
    assert_eq!(history.len(), 1);
    assert_eq!(history[0].content, special_content);
}

#[test]
fn test_multiple_operations_sequence() {
    let mut db = DatabaseManager::new();

    // Add some initial data
    db.add_clipboard_item("item 1", EntryKind::from_str("text").unwrap())
        .unwrap();
    db.add_clipboard_item("item 2", EntryKind::from_str("text").unwrap())
        .unwrap();

    let history = db.get_clipboard_history().unwrap();
    let item1_id = history[1].id;
    let item2_id = history[0].id;

    // Perform multiple operations
    db.toggle_pin(item1_id).unwrap();
    db.add_clipboard_item("item 3", EntryKind::from_str("text").unwrap())
        .unwrap();
    db.toggle_pin(item2_id).unwrap();

    let final_history = db.get_clipboard_history().unwrap();
    assert_eq!(final_history.len(), 3);

    // Both pinned items should be at the top
    let pinned_count = final_history.iter().filter(|item| item.pinned).count();
    assert_eq!(pinned_count, 2);
}
