use paf::extensions::iter::{IteratorExt, LimitCount};

fn collect<I: Iterator, P: Fn(&I::Item) -> bool>(mut adaptor: LimitCount<I, P>) -> Vec<I::Item> {
    let mut items = Vec::new();
    while let Some(item) = adaptor.next() {
        items.push(item);
    }
    items
}

#[test]
fn test_limit_count() {
    let src: Vec<i32> = vec![1, 2, 3, 4, 5, 6, 7, 8, 9, 10];
    let got = collect(src.into_iter().limit_count(|x: &i32| *x % 2 == 0, 3));
    assert_eq!(got, vec![1, 2, 3, 4, 5, 6, 7]);
}

#[test]
fn limit_zero_stops_at_first_match() {
    let got = collect(vec![1, 3, 4, 5].into_iter().limit_count(|x: &i32| *x % 2 == 0, 0));
    assert_eq!(got, vec![1, 3]);
}

#[test]
fn limit_not_reached_yields_everything() {
    let got = collect("a.b".chars().limit_count(|c: &char| *c == '.', 1));
    assert_eq!(got, vec!['a', '.', 'b']);
    let got = collect("".chars().limit_count(|c: &char| *c == '.', 1));
    assert_eq!(got, vec![]);
}

#[test]
fn withheld_item_is_consumed() {
    let mut adaptor = vec![2, 4, 5].into_iter().limit_count(|x: &i32| *x % 2 == 0, 1);
    assert_eq!(adaptor.next(), Some(2));
    assert_eq!(adaptor.next(), None);
    assert_eq!(adaptor.next(), Some(5));
    assert_eq!(adaptor.next(), None);
}
