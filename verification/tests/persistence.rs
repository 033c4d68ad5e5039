//! The record codec: exact save format, the save/load round trip, and the
//! lossy-recovery policy for malformed fields.

use tamo::{load_tamo, LoadError, Tamo, TamoRoom};

#[test]
fn save_writes_the_exact_record() {
    let t = Tamo::build(String::from("Tamo"));
    assert_eq!(t.save_tamo(), "Tamo,0,10,10,100,100, 100, 100\n");
}

#[test]
fn save_prints_fixed_point_fields() {
    let t = Tamo {
        name: String::from("Tamo"),
        age: 1,
        hunger: 995,
        thirst: 1050,
        happiness: -5,
        energy: 10495,
        room: TamoRoom { food: 0, water: 4294967295 },
    };
    assert_eq!(t.save_tamo(), "Tamo,0.01,9.95,10.5,-0.05,104.95, 0, 4294967295\n");
}

#[test]
fn saved_then_reloaded_equals_the_original() {
    let t = Tamo {
        name: String::from("My Pet"),
        age: 123456,
        hunger: 995,
        thirst: -1050,
        happiness: -5,
        energy: i64::MAX,
        room: TamoRoom { food: 7, water: 0 },
    };
    let rec = t.save_tamo();
    let back = load_tamo(&rec).unwrap();
    assert_eq!(back, t);
}

#[test]
fn reload_tolerates_the_space_before_resource_fields() {
    let back = load_tamo("Pet,0.5,10,10,100,100, 42, 43\n").unwrap();
    assert_eq!(back.age, 50);
    assert_eq!(back.room.food, 42);
    assert_eq!(back.room.water, 43);
}

#[test]
fn malformed_numeric_fields_load_as_zero() {
    let back = load_tamo("x,abc,1.5,2,3,4, 10, 11").unwrap();
    assert_eq!(back.name, "x");
    assert_eq!(back.age, 0);
    assert_eq!(back.hunger, 150);
    assert_eq!(back.thirst, 200);
    assert_eq!(back.happiness, 300);
    assert_eq!(back.energy, 400);
    assert_eq!(back.room.food, 10);
    assert_eq!(back.room.water, 11);
}

#[test]
fn empty_numeric_fields_load_as_zero() {
    let back = load_tamo("n,,,,,, , ").unwrap();
    assert_eq!(back.name, "n");
    assert_eq!(back.age, 0);
    assert_eq!(back.hunger, 0);
    assert_eq!(back.thirst, 0);
    assert_eq!(back.happiness, 0);
    assert_eq!(back.energy, 0);
    assert_eq!(back.room.food, 0);
    assert_eq!(back.room.water, 0);
}

#[test]
fn out_of_range_magnitudes_load_as_zero() {
    let back = load_tamo("n,99999999999999999999999,1,1,1,1, 4294967296, 4294967295").unwrap();
    assert_eq!(back.age, 0);
    assert_eq!(back.room.food, 0);
    assert_eq!(back.room.water, 4294967295);
}

#[test]
fn stray_numeric_syntax_loads_as_zero() {
    let back = load_tamo("n,1e9,1.234,+5,-1.5,--2, -1, 3x").unwrap();
    assert_eq!(back.age, 0);
    assert_eq!(back.hunger, 0);
    assert_eq!(back.thirst, 0);
    assert_eq!(back.happiness, -150);
    assert_eq!(back.energy, 0);
    assert_eq!(back.room.food, 0);
    assert_eq!(back.room.water, 0);
}

#[test]
fn too_few_fields_is_a_format_error() {
    assert_eq!(load_tamo("a,b,c"), Err(LoadError::Format));
}

#[test]
fn too_many_fields_is_a_format_error() {
    assert_eq!(load_tamo("a,1,2,3,4,5, 6, 7, 8"), Err(LoadError::Format));
}

#[test]
fn extreme_values_round_trip() {
    let t = Tamo {
        name: String::from("edge"),
        age: i64::MAX,
        hunger: i64::MIN,
        thirst: 0,
        happiness: -100,
        energy: 100,
        room: TamoRoom { food: u32::MAX, water: 1 },
    };
    let back = load_tamo(&t.save_tamo()).unwrap();
    assert_eq!(back, t);
}
