use gws::util::collect_or_first_err;
use gws::util::CollectOrFirstErr;

#[test]
fn first_err_is_returned() {
    assert_eq!(
        vec![Ok(1), Err(2), Err(3)].collect_or_first_err(),
        Err::<Vec<i64>, i64>(2),
    );
}

#[test]
fn collection_is_returned_if_all_are_ok() {
    let v: Vec<Result<i64, i64>> = vec![Ok(1), Ok(2), Ok(3)];
    assert_eq!(v.collect_or_first_err(), Ok(vec![1, 2, 3]),);
}

#[test]
fn empty_list_collects_to_empty() {
    let v: Vec<Result<i64, i64>> = vec![];
    assert_eq!(collect_or_first_err(v), Ok(vec![]));
}
