use fuel_lab::{AppState, CommandParser, ConditionOperator, Effect, Fuel, Message};

fn price(s: &String) -> Result<f64, String> {
    s.parse::<f64>().map_err(|e| e.to_string())
}

fn price_test(p: &f64, op: ConditionOperator, v: &String) -> bool {
    match v.parse::<f64>() {
        Ok(value) => match op {
            ConditionOperator::Less => *p < value,
            ConditionOperator::LessEqual => *p <= value,
            ConditionOperator::Greater => *p > value,
            ConditionOperator::GreaterEqual => *p >= value,
            ConditionOperator::Equal => (*p - value).abs() < 0.001,
            ConditionOperator::NotEqual => (*p - value).abs() >= 0.001,
        },
        Err(_) => false,
    }
}

fn update(state: &mut AppState<f64>, message: Message) -> Effect {
    state.update(message, &price)
}

#[test]
fn ui_add_commit_pending_row_updates_storage() {
    let mut state: AppState<f64> = AppState::default();

    let _ = update(&mut state, Message::Add);
    assert!(state.last_pending);

    let _ = update(&mut state, Message::EditingDateChanged("2024.06.01 12:00".to_string()));
    let _ = update(&mut state, Message::EditingNameChanged("Diesel".to_string()));
    let _ = update(&mut state, Message::EditingPriceChanged("3.99".to_string()));
    let _ = update(&mut state, Message::EditingColorChanged("255:200:0".to_string()));
    let _ = update(&mut state, Message::CommitPendingRow);

    assert_eq!(state.fuel_storage.len(), 1);
    assert!(!state.last_pending);
    assert_eq!(state.fuel_storage.get_all()[0].name, "Diesel");
    assert!(state.editing_date.is_empty());
    assert!(state.editing_name.is_empty());
    assert!(state.editing_price.is_empty());
    assert!(state.editing_color.is_empty());
}

#[test]
fn ui_commit_invalid_pending_row_keeps_pending_and_storage_unchanged() {
    let mut state: AppState<f64> = AppState::default();

    let _ = update(&mut state, Message::Add);
    let _ = update(&mut state, Message::EditingDateChanged("2024.06.01 12:00".to_string()));
    let _ = update(&mut state, Message::EditingNameChanged("Diesel".to_string()));
    let _ = update(&mut state, Message::EditingPriceChanged("not-a-number".to_string()));
    let _ = update(&mut state, Message::EditingColorChanged("255:0:0".to_string()));
    let _ = update(&mut state, Message::CommitPendingRow);

    assert_eq!(state.fuel_storage.len(), 0);
    assert!(state.last_pending);
}

#[test]
fn ui_toggle_then_delete_selected_removes_rows() {
    let mut state: AppState<f64> = AppState::default();
    state
        .fuel_storage
        .push(Fuel::from_string("Gasoline,2024.06.01 12:00,3.99,255:0:0", &price).unwrap());
    state
        .fuel_storage
        .push(Fuel::from_string("Diesel,2024.06.01 13:00,4.50,0:255:0", &price).unwrap());

    let _ = update(&mut state, Message::ToggleRow(1));
    let _ = update(&mut state, Message::DeleteSelected);

    assert_eq!(state.fuel_storage.len(), 1);
    assert_eq!(state.fuel_storage.get_all()[0].name, "Gasoline");
    assert!(state.selected_rows.is_empty());
}

#[test]
fn ui_file_selected_replaces_storage_and_clears_selection() {
    let mut state: AppState<f64> = AppState::default();
    state
        .fuel_storage
        .push(Fuel::from_string("OldFuel,2024.06.01 12:00,1.00,1:1:1", &price).unwrap());
    state.selected_rows.insert(0);

    let file_path = "fuel_input.csv".to_string();
    let file_text = "NewFuel,2024.06.02 14:00,2.50,10:20:30";

    // The screen asks for the file to be read; the text read comes back.
    let effect = update(&mut state, Message::FileSelected(file_path.clone()));
    assert_eq!(effect, Effect::LoadFile(file_path));
    let _ = state.load_records(file_text, &price);

    assert_eq!(state.fuel_storage.len(), 1);
    assert_eq!(state.fuel_storage.get_all()[0].name, "NewFuel");
    assert!(state.selected_rows.is_empty());
}

#[test]
fn ui_execute_commands_uses_loaded_command_file() {
    let mut state: AppState<f64> = AppState::default();

    let command_path = "commands.cmd".to_string();
    let command_text =
        "ADD Diesel,2024.06.01 12:00,3.99,255:0:0\nADD Gasoline,2024.06.01 13:00,4.01,0:255:0";

    state.command_path = command_path.clone();
    let effect = update(&mut state, Message::ExecuteCommands);
    assert_eq!(effect, Effect::RunCommandFile(command_path));
    for cmd in CommandParser::new().parse_content(command_text) {
        let _ = state.apply_command(&cmd, &price, &price_test);
    }

    assert_eq!(state.fuel_storage.len(), 2);
    assert_eq!(state.fuel_storage.get_all()[0].name, "Diesel");
    assert_eq!(state.fuel_storage.get_all()[1].name, "Gasoline");
}

#[test]
fn ui_save_now_without_path_sets_hint_message() {
    let mut state: AppState<f64> = AppState::default();
    assert!(state.path.is_empty());

    let _ = update(&mut state, Message::SaveNow);

    assert_eq!(state.path, "No file opened. Use Save interactively...");
}
