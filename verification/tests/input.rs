use panamax::crates::CrateEntry;
use panamax::verify::select_entries;
use panamax::verify::selected_indices;
use panamax::verify::Input;

#[test]
fn true_range() {
    let input = "1-5".to_string();
    let expected_result = Input::Range(0usize, 4usize);
    let result = input.parse::<Input>().unwrap();
    assert_eq!(expected_result, result);
}

#[test]
fn false_range_true_usize() {
    let input = "1-1".to_string();
    let expected_result = Input::Usize(0);
    let result = input.parse::<Input>().unwrap();
    assert_eq!(expected_result, result);
}

#[test]
fn garbage_range_1() {
    let input = "foo-bar".to_string();
    let expected_result = Input::Ignore;
    let result = input.parse::<Input>().unwrap();
    assert_eq!(expected_result, result);
}

#[test]
fn garbage_range_2() {
    let input = "1-5 7".to_string();
    let expected_result = Input::Ignore;
    let result = input.parse::<Input>().unwrap();
    assert_eq!(expected_result, result);
}

#[test]
fn garbage_range_3() {
    let input = "1-foo".to_string();
    let expected_result = Input::Ignore;
    let result = input.parse::<Input>().unwrap();
    assert_eq!(expected_result, result);
}

#[test]
fn garbage_range_4() {
    let input = "5-1".to_string();
    let expected_result = Input::Ignore;
    let result = input.parse::<Input>().unwrap();
    assert_eq!(expected_result, result);
}

#[test]
fn garbage_range_5() {
    let input = "0-2".to_string();
    let expected_result = Input::Ignore;
    let result = input.parse::<Input>().unwrap();
    assert_eq!(expected_result, result);
}

#[test]
fn garbage_range_6() {
    let input = "0-0".to_string();
    let expected_result = Input::Ignore;
    let result = input.parse::<Input>().unwrap();
    assert_eq!(expected_result, result);
}

#[test]
fn true_vec() {
    let input = "1 2 5 9".to_string();
    let expected_result = Input::List(vec![0, 1, 4, 8]);
    let result = input.parse::<Input>().unwrap();
    assert_eq!(expected_result, result);
}

#[test]
fn true_vec_shuffled() {
    let input = "6 4 8 2".to_string();
    let expected_result = Input::List(vec![1, 3, 5, 7]);
    let result = input.parse::<Input>().unwrap();
    assert_eq!(expected_result, result);
}

#[test]
fn garbage_vec() {
    let input = "foo bar fubar".to_string();
    let expected_result = Input::Ignore;
    let result = input.parse::<Input>().unwrap();
    assert_eq!(expected_result, result);
}

#[test]
fn some_garbage_vec_1() {
    let input = "1 bar 6".to_string();
    let expected_result = Input::List(vec![0, 5]);
    let result = input.parse::<Input>().unwrap();
    assert_eq!(expected_result, result);
}

#[test]
fn some_garbage_vec_2() {
    let input = "0 2 6".to_string();
    let expected_result = Input::List(vec![1, 5]);
    let result = input.parse::<Input>().unwrap();
    assert_eq!(expected_result, result);
}

#[test]
fn some_garbage_vec_3() {
    let input = "4 0 2".to_string();
    let expected_result = Input::List(vec![1, 3]);
    let result = input.parse::<Input>().unwrap();
    assert_eq!(expected_result, result);
}

#[test]
fn true_usize() {
    let input = "42".to_string();
    let expected_result = Input::Usize(41);
    let result = input.parse::<Input>().unwrap();
    assert_eq!(expected_result, result);
}

#[test]
fn garbage_usize_1() {
    let input = "foo".to_string();
    let expected_result = Input::Ignore;
    let result = input.parse::<Input>().unwrap();
    assert_eq!(expected_result, result);
}

#[test]
fn garbage_usize_2() {
    let input = "0".to_string();
    let expected_result = Input::Ignore;
    let result = input.parse::<Input>().unwrap();
    assert_eq!(expected_result, result);
}

#[test]
fn full_garbage() {
    let input = "1-3 42".to_string();
    let expected_result = Input::Ignore;
    let result = input.parse::<Input>().unwrap();
    assert_eq!(expected_result, result);
}

#[test]
fn check_bounds() {
    assert!(Input::Range(0, 4).check(5));
    assert!(!Input::Range(0, 4).check(4));
    assert!(Input::Usize(3).check(4));
    assert!(!Input::Usize(4).check(4));
    assert!(Input::List(vec![0, 2]).check(3));
    assert!(!Input::List(vec![0, 3]).check(3));
    assert!(!Input::Ignore.check(10));
}

#[test]
fn selection_empty_input_downloads_all() {
    assert_eq!(vec![0, 1, 2, 3, 4], selected_indices("", 5));
}

#[test]
fn selection_zero_downloads_none() {
    assert_eq!(Vec::<usize>::new(), selected_indices("0", 5));
}

#[test]
fn selection_out_of_range_downloads_none() {
    assert_eq!(Vec::<usize>::new(), selected_indices("7", 5));
    assert_eq!(Vec::<usize>::new(), selected_indices("2-9", 5));
}

#[test]
fn selection_third_candidate() {
    assert_eq!(vec![2], selected_indices("3", 5));
}

#[test]
fn selection_first_and_third() {
    assert_eq!(vec![0, 2], selected_indices("1 3", 5));
}

#[test]
fn selection_second_through_fourth() {
    assert_eq!(vec![1, 2, 3], selected_indices("2-4", 5));
}

#[test]
fn select_entries_picks_by_index() {
    let entries = vec![
        CrateEntry::new("a".to_string(), "0.1".to_string(), "h".to_string(), false),
        CrateEntry::new("be".to_string(), "0.2".to_string(), "h".to_string(), false),
        CrateEntry::new("cde".to_string(), "0.3".to_string(), "h".to_string(), false),
    ];
    let picked = select_entries(&entries, &vec![0, 2]);
    assert_eq!(2, picked.len());
    assert_eq!("a", picked[0].get_name());
    assert_eq!("cde", picked[1].get_name());
}
