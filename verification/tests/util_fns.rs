use robot_joint_pubsub::numeric::{divide_with_remainder, BoxedValue, Point, Position};
use robot_joint_pubsub::text::{
    clear_string, dangle, first_word, get_full_name_ref, get_full_name_string, get_name_ref,
    get_random_name, get_str_len_wo_ownership, get_tuple, str_len, str_len_mut, Person,
};

#[test]
fn divide_with_remainder_truncates_toward_zero() {
    assert_eq!(divide_with_remainder(17, 5), (3, 2));
    assert_eq!(divide_with_remainder(-17, 5), (-3, -2));
    assert_eq!(divide_with_remainder(17, -5), (-3, 2));
    assert_eq!(divide_with_remainder(-17, -5), (3, -2));
    assert_eq!(divide_with_remainder(4, 2), (2, 0));
    assert_eq!(divide_with_remainder(i32::MIN, 1), (i32::MIN, 0));
}

#[test]
fn points_move_by_offsets() {
    let mut p: Point<i64> = Point { x: 1, y: 2 };
    p.move_point(10, -20);
    assert_eq!(p.x, 11);
    assert_eq!(p.y, -18);
}

#[test]
fn string_points_append_coordinates() {
    let mut p: Point<String> = Point { x: String::from("a"), y: String::from("b") };
    p.move_point_str("1", "2");
    assert_eq!(p.x, "a1");
    assert_eq!(p.y, "b2");
}

#[test]
fn positions_double_and_zero() {
    let pos = Position(10, 20, 30);
    let twice = pos.twice();
    assert_eq!((twice.0, twice.1, twice.2), (20, 40, 60));
    let mut pos2 = Position(1, -2, 3);
    pos2.make_twice();
    assert_eq!((pos2.0, pos2.1, pos2.2), (2, -4, 6));
    let z = Position::zero();
    assert_eq!((z.0, z.1, z.2), (0, 0, 0));
}

#[test]
fn boxed_value_keeps_its_value() {
    let b = BoxedValue::new(22);
    assert_eq!(b.value, 22);
}

#[test]
fn string_lengths_count_characters() {
    let s = String::from("Hello Rust!");
    assert_eq!(str_len(&s), 11);
    assert_eq!(get_str_len_wo_ownership(&s), 11);
}

#[test]
fn str_len_mut_appends_world() {
    let mut s = String::from("hello");
    str_len_mut(&mut s);
    assert_eq!(s, "hello, world");
}

#[test]
fn clear_string_empties() {
    let mut s = String::from("Sooyoung");
    clear_string(&mut s);
    assert_eq!(s, "");
}

#[test]
fn first_word_finds_the_first_space() {
    assert_eq!(first_word("Hello Proception!!"), 5);
    assert_eq!(first_word("single"), 6);
    assert_eq!(first_word(" leading"), 0);
    assert_eq!(first_word(""), 0);
}

#[test]
fn name_helpers_hand_back_names() {
    assert_eq!(dangle(), "dangerous string");
    assert_eq!(get_full_name_string(), "Sooyoung Kim String");
    assert_eq!(get_full_name_ref(), "Sooyoung Kim $str");
    assert_eq!(get_random_name("Sooyoung Kim", "Hong Gil Dong"), "Sooyoung Kim");
    assert_eq!(get_name_ref("Maci Marshall"), "Maci Marshall");
    let (first, last, age) = get_tuple();
    assert_eq!(first, "John");
    assert_eq!(last, "Doe");
    assert_eq!(age, 30);
}

#[test]
fn person_first_char_and_age() {
    let mut p = Person {
        first_name: String::from("Sooyoung"),
        last_name: String::from("Kim"),
        age: 28,
    };
    assert_eq!(p.first_char_of_first_name(), "S");
    assert_eq!(p.increase_age(), 29);
    assert_eq!(p.age, 29);
}
