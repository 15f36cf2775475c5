use fuel_lab::fuel::{color_text, split_record};
use fuel_lab::{AppState, Command, CommandParser, Condition, ConditionField, ConditionOperator};
use fuel_lab::{Effect, Fuel, FuelDate, FuelParser, FuelStorage, Message};

fn price(s: &String) -> Result<f64, String> {
    s.parse::<f64>().map_err(|e| e.to_string())
}

fn price_test(p: &f64, op: ConditionOperator, v: &String) -> bool {
    match v.parse::<f64>() {
        Ok(value) => match op {
            ConditionOperator::Less => *p < value,
            ConditionOperator::LessEqual => *p <= value,
            ConditionOperator::Greater => *p > value,
            ConditionOperator::GreaterEqual => *p >= value,
            ConditionOperator::Equal => (*p - value).abs() < 0.001,
            ConditionOperator::NotEqual => (*p - value).abs() >= 0.001,
        },
        Err(_) => false,
    }
}

fn named(name: &str) -> Fuel<f64> {
    Fuel::from_string(&format!("{},2024.06.01 12:00,1.00,0:0:0", name), &price).unwrap()
}

// ==================== record lines ====================

#[test]
fn record_fields_are_trimmed() {
    let f = split_record("  Gas  ,  2024.06.01 12:00 , 3.99 ,1:2:3 ").unwrap();
    assert_eq!(f.name, "Gas");
    assert_eq!(f.date, "2024.06.01 12:00");
    assert_eq!(f.price, "3.99");
    assert_eq!(f.color, "1:2:3");
}

#[test]
fn record_line_round_trip() {
    let line = format!("{},{},{},{}", "Diesel", "2024.06.02 13:00", "2.50", "0:0:255");
    let f = split_record(&line).unwrap();
    assert_eq!(f.name, "Diesel");
    assert_eq!(f.date, "2024.06.02 13:00");
    assert_eq!(f.price, "2.50");
    assert_eq!(f.color, "0:0:255");
}

#[test]
fn record_outer_space_does_not_matter() {
    let a = Fuel::from_string("Gas,2024.06.01 12:00,3.99,1:2:3", &price).unwrap();
    let b = Fuel::from_string(" \t Gas,2024.06.01 12:00,3.99,1:2:3 \r\n", &price).unwrap();
    assert_eq!(a, b);
}

#[test]
fn record_part_count_message() {
    let e = Fuel::from_string("a,b,c", &price).unwrap_err();
    assert_eq!(e, "Input must have four parts separated by commas, got 3");
    let e = Fuel::from_string("a,b,c,d,e,f,g,h,i,j,k", &price).unwrap_err();
    assert_eq!(e, "Input must have four parts separated by commas, got 11");
}

#[test]
fn record_error_messages_are_exact() {
    assert_eq!(Fuel::from_string("", &price).unwrap_err(), "Empty input");
    assert_eq!(
        Fuel::from_string(" ,2024.06.01 12:00,1,0:0:0", &price).unwrap_err(),
        "Name cannot be empty"
    );
    assert_eq!(
        Fuel::from_string("Gas,2024.06.01 12:00,abc,0:0:0", &price).unwrap_err(),
        "Failed to parse price 'abc': invalid float literal"
    );
    assert_eq!(
        Fuel::from_string("Gas,2024-06-01 12:00,1,0:0:0", &price).unwrap_err(),
        "Invalid date format '2024-06-01 12:00', expected yyyy.mm.dd hh:mm"
    );
}

#[test]
fn price_error_comes_before_color_and_date_errors() {
    let e = Fuel::from_string("Gas,bad date,abc,bad", &price).unwrap_err();
    assert!(e.starts_with("Failed to parse price"));
    let e = Fuel::from_string("Gas,bad date,1.5,bad", &price).unwrap_err();
    assert!(e.starts_with("Invalid color format"));
}

#[test]
fn record_date_fields() {
    let f = Fuel::from_string("Gas,2024.06.01 12:34,3.99,1:2:3", &price).unwrap();
    assert_eq!(f.date.year, 2024);
    assert_eq!(f.date.month, 6);
    assert_eq!(f.date.day, 1);
    assert_eq!(f.date.hour, 12);
    assert_eq!(f.date.minute, 34);
    assert_eq!(f.date.second, 0);
    assert_eq!(f.color, (1, 2, 3));
    assert_eq!(f.price, 3.99);
}

#[test]
fn impossible_date_is_refused() {
    assert!(Fuel::from_string("Gas,2024.02.30 12:00,1,0:0:0", &price).is_err());
}

// ==================== colours ====================

#[test]
fn color_round_trip() {
    for c in [(0u8, 0u8, 0u8), (255, 255, 255), (1, 22, 233), (9, 10, 99), (100, 0, 7)] {
        let t = color_text(c);
        assert_eq!(Fuel::<f64>::parse_color(&t), Ok(c));
    }
    assert_eq!(color_text((100, 150, 200)), "100:150:200");
}

#[test]
fn color_errors() {
    assert_eq!(
        Fuel::<f64>::parse_color("1:2"),
        Err("Invalid color format '1:2', expected u8:u8:u8".to_string())
    );
    assert_eq!(
        Fuel::<f64>::parse_color("256:0:0"),
        Err("Failed to parse color R '256': number too large to fit in target type".to_string())
    );
    assert_eq!(
        Fuel::<f64>::parse_color("0::0"),
        Err("Failed to parse color G '': cannot parse integer from empty string".to_string())
    );
    assert_eq!(
        Fuel::<f64>::parse_color("0:0:-1"),
        Err("Failed to parse color B '-1': invalid digit found in string".to_string())
    );
    assert_eq!(
        Fuel::<f64>::parse_color("0:0: 1"),
        Err("Failed to parse color B ' 1': invalid digit found in string".to_string())
    );
    assert_eq!(Fuel::<f64>::parse_color("+1:007:255"), Ok((1, 7, 255)));
    assert!(Fuel::<f64>::parse_color("+:0:0").is_err());
}

#[test]
fn color_parse_agrees_with_std() {
    for s in ["0", "255", "256", "+1", "+", "-0", "", "1a", "999a", "0000012", "25 "] {
        let line = format!("{}:0:0", s);
        let ours = Fuel::<f64>::parse_color(&line).map(|c| c.0);
        match s.parse::<u8>() {
            Ok(v) => assert_eq!(ours, Ok(v)),
            Err(e) => assert_eq!(ours, Err(format!("Failed to parse color R '{}': {}", s, e))),
        }
    }
}

// ==================== conditions ====================

#[test]
fn condition_words_and_aliases() {
    let c = Condition::parse("  COST   >=   12.5  ").unwrap();
    assert_eq!(c.field, ConditionField::Price);
    assert_eq!(c.operator, ConditionOperator::GreaterEqual);
    assert_eq!(c.value, "12.5");
    let c = Condition::parse("fuel <> Super   Diesel  95").unwrap();
    assert_eq!(c.field, ConditionField::Name);
    assert_eq!(c.operator, ConditionOperator::NotEqual);
    assert_eq!(c.value, "Super Diesel 95");
    let c = Condition::parse("type = Oil").unwrap();
    assert_eq!(c.operator, ConditionOperator::Equal);
}

#[test]
fn condition_error_messages() {
    assert_eq!(
        Condition::parse(" price < ").unwrap_err(),
        "Invalid condition format 'price <', expected: field operator value"
    );
    assert_eq!(Condition::parse("Unknown < 100").unwrap_err(), "Unknown field 'unknown'");
    assert_eq!(Condition::parse("price ^ 100").unwrap_err(), "Unknown operator '^'");
}

#[test]
fn name_comparisons_ignore_case_and_are_total() {
    let fuel = named("Diesel");
    let holds = |s: &str| Condition::parse(s).unwrap().evaluate(&fuel, &price_test);
    assert!(holds("name == DIESEL"));
    assert!(!holds("name != diesel"));
    for v in ["Apple", "diesel", "Zebra", "Dies", "Diesels"] {
        let lt = holds(&format!("name < {}", v));
        let eq = holds(&format!("name == {}", v));
        let gt = holds(&format!("name > {}", v));
        assert_eq!((lt as u8) + (eq as u8) + (gt as u8), 1);
        assert_eq!(holds(&format!("name <= {}", v)), lt || eq);
        assert_eq!(holds(&format!("name >= {}", v)), gt || eq);
        assert_eq!(holds(&format!("name != {}", v)), !eq);
    }
}

#[test]
fn price_condition_uses_the_price_test() {
    let fuel = named("Gas");
    assert!(Condition::parse("price == 1.0005").unwrap().evaluate(&fuel, &price_test));
    assert!(!Condition::parse("price > abc").unwrap().evaluate(&fuel, &price_test));
}

// ==================== commands ====================

#[test]
fn command_keywords_ignore_case() {
    let p = CommandParser::new();
    assert_eq!(p.parse_single_command("add  x,y  "), Ok(Command::Add("x,y".to_string())));
    assert_eq!(
        p.parse_single_command("Rem name == Gas"),
        Ok(Command::Remove("name == Gas".to_string()))
    );
    assert_eq!(p.parse_single_command("save out.csv"), Ok(Command::Save("out.csv".to_string())));
}

#[test]
fn command_error_messages() {
    let p = CommandParser::new();
    assert_eq!(p.parse_single_command("ADD"), Err("ADD requires CSV data".to_string()));
    assert_eq!(p.parse_single_command("REM   "), Err("REM requires condition".to_string()));
    assert_eq!(p.parse_single_command("SAVE"), Err("SAVE requires filename".to_string()));
    assert_eq!(p.parse_single_command("FOO bar"), Err("Unknown command 'FOO'".to_string()));
    assert_eq!(p.parse_single_command("REM bogus < 1"), Err("Unknown field 'bogus'".to_string()));
}

#[test]
fn removals_with_bad_conditions_are_skipped() {
    let p = CommandParser::new();
    let cmds = p.parse_content("REM price < 1\r\nREM nothing here\n  # note\nSAVE a.csv\n");
    assert_eq!(
        cmds,
        vec![Command::Remove("price < 1".to_string()), Command::Save("a.csv".to_string())]
    );
    for c in cmds {
        if let Command::Remove(text) = c {
            assert!(Condition::parse(&text).is_ok());
        }
    }
}

// ==================== storage ====================

#[test]
fn storage_parse_appends_in_order() {
    let mut s: FuelStorage<f64> = FuelStorage::new();
    s.push(named("First"));
    s.parse("Second,2024.06.01 12:00,1,0:0:0\r\nbad\n\nThird,2024.06.01 12:00,1,0:0:0", &price);
    let names: Vec<&str> = s.get_all().iter().map(|f| f.name.as_str()).collect();
    assert_eq!(names, vec!["First", "Second", "Third"]);
}

#[test]
fn retain_keeps_order() {
    let mut s: FuelStorage<f64> = FuelStorage::new();
    for n in ["a", "b", "c", "d"] {
        s.push(named(n));
    }
    s.retain(|f: &Fuel<f64>| f.name != "b");
    let names: Vec<&str> = s.get_all().iter().map(|f| f.name.as_str()).collect();
    assert_eq!(names, vec!["a", "c", "d"]);
}

#[test]
fn parser_skips_blank_lines() {
    let s = FuelParser::new().parse_content("\n\n   \n", &price);
    assert!(s.is_empty());
}

#[test]
fn new_record_is_dated_now() {
    let f = Fuel::new(-1.0);
    assert!(f.date.year >= 2024);
    assert!(f.date.month >= 1 && f.date.month <= 12);
    assert!(!f.date.table_text().is_empty());
}

#[test]
fn new_record_at_a_given_time() {
    let d = FuelDate { year: 2024, month: 6, day: 1, hour: 12, minute: 0, second: 0, nanosecond: 0 };
    let f = Fuel::new_at(-1.0, d);
    assert_eq!(f.date, d);
    assert_eq!(f.name, "Not defined");
    assert_eq!(f.color, (0, 0, 0));
}

#[test]
fn table_text_of_dates() {
    let d = FuelDate { year: 2024, month: 6, day: 1, hour: 12, minute: 0, second: 0, nanosecond: 0 };
    assert_eq!(d.table_text(), "2024-06-01 12:00:00 UTC");
    let bad = FuelDate { year: 2024, month: 13, day: 40, hour: 0, minute: 0, second: 0, nanosecond: 0 };
    assert_eq!(bad.table_text(), "");
}

#[test]
fn fill_date_writes_record_format() {
    let mut st: AppState<f64> = AppState::default();
    let d = FuelDate { year: 2024, month: 6, day: 1, hour: 9, minute: 5, second: 33, nanosecond: 0 };
    assert_eq!(st.update(Message::PasteNow, &price), Effect::FillDateNow);
    st.fill_date(&d);
    assert_eq!(st.editing_date, "2024.06.01 09:05");
    let _ = st.update(Message::EditingNameChanged("Gas".to_string()), &price);
    let _ = st.update(Message::EditingPriceChanged("1.5".to_string()), &price);
    let _ = st.update(Message::EditingColorChanged("1:2:3".to_string()), &price);
    let _ = st.update(Message::CommitPendingRow, &price);
    assert_eq!(st.fuel_storage.len(), 1);
    assert_eq!(st.fuel_storage.get_all()[0].date.minute, 5);
}

#[test]
fn parse_errors_are_numbered() {
    let text = "Gas,2024.06.01 12:00,1,0:0:0\n\nbroken line\nOil,2024.06.01 12:00,abc,0:0:0\nDiesel,2024.06.01 12:00,2,0:0:0";
    let (s, errors) = FuelParser::new().parse_content_with_errors(text, &price);
    assert_eq!(s.len(), 2);
    assert_eq!(
        errors,
        vec![
            (3, "Input must have four parts separated by commas, got 1".to_string()),
            (4, "Failed to parse price 'abc': invalid float literal".to_string()),
        ]
    );
    let mut st: AppState<f64> = AppState::default();
    let errs = st.load_records(text, &price);
    assert_eq!(errs.len(), 2);
    assert_eq!(st.fuel_storage.len(), 2);
}

#[test]
fn command_errors_are_numbered() {
    let (cmds, errors) =
        CommandParser::new().parse_content_with_errors("# c\nADD\n\nSAVE x\nFOO y\nREM bogus < 1");
    assert_eq!(cmds, vec![Command::Save("x".to_string())]);
    assert_eq!(
        errors,
        vec![
            (2, "ADD requires CSV data".to_string()),
            (5, "Unknown command 'FOO'".to_string()),
            (6, "Unknown field 'bogus'".to_string()),
        ]
    );
}

#[test]
fn saved_records_load_back_as_the_same_records() {
    let mut s: FuelStorage<f64> = FuelStorage::new();
    s.parse("Gasoline,2024.06.01 12:00,3.99,255:0:0\nDiesel,2024.06.02 13:00,2.5,0:0:255\nOil,1999.12.31 23:59,0.1,7:8:9", &price);
    let back = FuelParser::new().parse_content(&s.serialize_storage(&price_text), &price);
    assert_eq!(back.get_all(), s.get_all());
}

// ==================== screen ====================

#[test]
fn toggle_twice_restores_selection() {
    let mut st: AppState<f64> = AppState::default();
    st.selected_rows.insert(3);
    let _ = st.update(Message::ToggleRow(5), &price);
    let _ = st.update(Message::ToggleRow(5), &price);
    assert_eq!(st.selected_rows.len(), 1);
    assert!(st.selected_rows.contains(&3));
    let _ = st.update(Message::ToggleRow(3), &price);
    assert!(st.selected_rows.is_empty());
}

#[test]
fn delete_selected_keeps_the_others_in_order() {
    let mut st: AppState<f64> = AppState::default();
    for n in ["a", "b", "c", "d", "e"] {
        st.fuel_storage.push(named(n));
    }
    let _ = st.update(Message::ToggleRow(0), &price);
    let _ = st.update(Message::ToggleRow(3), &price);
    let _ = st.update(Message::ToggleRow(9), &price);
    let _ = st.update(Message::DeleteSelected, &price);
    let names: Vec<&str> = st.fuel_storage.get_all().iter().map(|f| f.name.as_str()).collect();
    assert_eq!(names, vec!["b", "c", "e"]);
    assert!(st.selected_rows.is_empty());
}

#[test]
fn add_keeps_a_pending_row() {
    let mut st: AppState<f64> = AppState::default();
    let _ = st.update(Message::Add, &price);
    let _ = st.update(Message::EditingNameChanged("Gas".to_string()), &price);
    let _ = st.update(Message::Add, &price);
    assert_eq!(st.editing_name, "Gas");
    assert!(st.add_pressed);
}

#[test]
fn effects_of_messages() {
    let mut st: AppState<f64> = AppState::default();
    assert_eq!(st.update(Message::SelectFile, &price), Effect::PickFile);
    assert_eq!(st.update(Message::SaveInteractively, &price), Effect::PickSaveFile);
    assert_eq!(st.update(Message::FileSaved("  ".to_string()), &price), Effect::Nothing);
    assert!(st.path.is_empty());
    assert_eq!(
        st.update(Message::FileSaved("out.csv".to_string()), &price),
        Effect::WriteStorage("out.csv".to_string())
    );
    assert_eq!(st.path, "out.csv");
    assert_eq!(
        st.update(Message::SaveNow, &price),
        Effect::WriteStorage("out.csv".to_string())
    );
    assert_eq!(st.update(Message::PasteNow, &price), Effect::FillDateNow);
    assert_eq!(st.update(Message::SaveAs, &price), Effect::Unimplemented);
    assert_eq!(st.update(Message::SelectCommandFile, &price), Effect::Unimplemented);
    let _ = st.update(Message::Dummy("x".to_string()), &price);
    assert_eq!(st.some_string, "x");
    let _ = st.update(Message::InputChanged("y".to_string()), &price);
    assert_eq!(st.input_form, "y");
}

#[test]
fn commands_add_remove_save() {
    let mut st: AppState<f64> = AppState::default();
    let run = |st: &mut AppState<f64>, c: Command| st.apply_command(&c, &price, &price_test);
    assert_eq!(run(&mut st, Command::Add("A,2024.06.01 12:00,1.5,0:0:0".to_string())), Effect::Nothing);
    run(&mut st, Command::Add("B,2024.06.01 12:00,2.5,0:0:0".to_string()));
    run(&mut st, Command::Add("broken".to_string()));
    assert_eq!(st.fuel_storage.len(), 2);
    run(&mut st, Command::Remove("no such field < 1".to_string()));
    assert_eq!(st.fuel_storage.len(), 2);
    run(&mut st, Command::Remove("price > 2".to_string()));
    assert_eq!(st.fuel_storage.len(), 1);
    assert_eq!(st.fuel_storage.get_all()[0].name, "A");
    assert_eq!(
        run(&mut st, Command::Save("x.csv".to_string())),
        Effect::WriteStorage("x.csv".to_string())
    );
}

// ==================== writing records ====================

fn price_text(p: &f64) -> String {
    format!("{:.2}", p)
}

#[test]
fn record_line_format() {
    let f = Fuel::from_string("Gasoline,2024.06.01 12:00,3.99,255:0:0", &price).unwrap();
    assert_eq!(f.record_line(&price_text), "Gasoline,2024.06.01 12:00,3.99,255:0:0");
    let g = Fuel::from_string("Gas,2024.06.01 09:05,4,1:2:3", &price).unwrap();
    assert_eq!(
        g.to_display_string(&price_text),
        "Name: Gas, Date: 2024-06-01 09:05:00, Price: 4.00, Color 1:2:3"
    );
}

#[test]
fn saved_records_read_back() {
    let mut s: FuelStorage<f64> = FuelStorage::new();
    s.parse("Gasoline,2024.06.01 12:00,3.99,255:0:0\nDiesel,2024.06.02 13:00,2.5,0:0:255", &price);
    let text = s.serialize_storage(&price_text);
    assert_eq!(text, "Gasoline,2024.06.01 12:00,3.99,255:0:0\nDiesel,2024.06.02 13:00,2.50,0:0:255");
    let back = FuelParser::new().parse_content(&text, &price);
    assert_eq!(back.len(), 2);
    for (a, b) in s.get_all().iter().zip(back.get_all().iter()) {
        assert_eq!(a, b);
    }
    let shown = s.to_display_string(&price_text);
    assert_eq!(shown.lines().count(), 2);
    assert!(shown.ends_with("Color 0:0:255\n"));
}

#[test]
fn empty_storage_writes_nothing() {
    let s: FuelStorage<f64> = FuelStorage::new();
    assert_eq!(s.serialize_storage(&price_text), "");
    assert_eq!(s.to_display_string(&price_text), "");
}
