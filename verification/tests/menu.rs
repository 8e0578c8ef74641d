use verilib_structure::menu::parse_selection;
use verilib_structure::menu::select;
use verilib_structure::menu::words;
use verilib_structure::scan::Piece;

fn word_list(text: &str) -> Vec<String> {
    let all: Vec<char> = text.chars().collect();
    let pieces: Vec<Piece> = words(&all);
    pieces.iter().map(|p| all[p.start..p.end].iter().collect()).collect()
}

#[test]
fn words_between_white_space_and_commas() {
    assert_eq!(word_list("1, 3,5"), vec!["1", "3", "5"]);
    assert_eq!(word_list("  1-3 ,, 7\t"), vec!["1-3", "7"]);
    assert_eq!(word_list(""), Vec::<String>::new());
    assert_eq!(word_list(" , ,"), Vec::<String>::new());
    assert_eq!(word_list("a"), vec!["a"]);
    assert_eq!(word_list("1\u{a0}2\u{3000}3"), vec!["1", "2", "3"]);
}

#[test]
fn nothing_chosen() {
    assert_eq!(select("", 5), Vec::<usize>::new());
    assert_eq!(select("none", 5), Vec::<usize>::new());
    assert_eq!(parse_selection("  \n", 5), Vec::<usize>::new());
    assert_eq!(parse_selection(" None ", 5), Vec::<usize>::new());
    assert_eq!(parse_selection("NONE\n", 5), Vec::<usize>::new());
}

#[test]
fn all_chosen() {
    assert_eq!(select("all", 3), vec![0, 1, 2]);
    assert_eq!(parse_selection(" ALL\n", 3), vec![0, 1, 2]);
    assert_eq!(parse_selection("all", 0), Vec::<usize>::new());
    assert_eq!(select("all all", 3), Vec::<usize>::new());
}

#[test]
fn numbers_and_ranges() {
    assert_eq!(parse_selection("1, 3, 5\n", 5), vec![0, 2, 4]);
    assert_eq!(parse_selection("1-3", 5), vec![0, 1, 2]);
    assert_eq!(parse_selection("4-5, 1", 5), vec![0, 3, 4]);
    assert_eq!(parse_selection("3 1 2 3 1", 5), vec![0, 1, 2]);
    assert_eq!(parse_selection("2-4 3-5", 5), vec![1, 2, 3, 4]);
    assert_eq!(parse_selection("+2", 5), vec![1]);
    assert_eq!(parse_selection("007", 9), vec![6]);
}

#[test]
fn numbers_out_of_range_are_passed_over() {
    assert_eq!(parse_selection("0", 5), Vec::<usize>::new());
    assert_eq!(parse_selection("6", 5), Vec::<usize>::new());
    assert_eq!(parse_selection("0-2", 5), vec![0, 1]);
    assert_eq!(parse_selection("4-9", 5), vec![3, 4]);
    assert_eq!(parse_selection("0-18446744073709551615", 3), vec![0, 1, 2]);
    assert_eq!(parse_selection("7-9", 5), Vec::<usize>::new());
    assert_eq!(parse_selection("3-1", 5), Vec::<usize>::new());
    assert_eq!(parse_selection("0-0", 5), Vec::<usize>::new());
    assert_eq!(parse_selection("1", 0), Vec::<usize>::new());
}

#[test]
fn words_that_are_no_numbers_are_passed_over() {
    assert_eq!(parse_selection("one, 2, three", 5), vec![1]);
    assert_eq!(parse_selection("1-2-3, 4", 5), vec![3]);
    assert_eq!(parse_selection("-3", 5), Vec::<usize>::new());
    assert_eq!(parse_selection("3-", 5), Vec::<usize>::new());
    assert_eq!(parse_selection("-", 5), Vec::<usize>::new());
    assert_eq!(parse_selection("1.5", 5), Vec::<usize>::new());
    assert_eq!(parse_selection("99999999999999999999999", 5), Vec::<usize>::new());
    assert_eq!(parse_selection("all, 1", 5), vec![0]);
}
