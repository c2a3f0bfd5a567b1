use type_toppings::IteratorExt;

#[test]
fn test_map_into_basic() {
    let data = vec![1_u8, 3_u8];
    let mut iter = data.into_iter().map_into();
    let mut result: Vec<u32> = Vec::new();
    while let Some(x) = iter.next() {
        result.push(x);
    }
    assert_eq!(result, vec![1_u32, 3_u32]);
}

#[test]
fn test_map_into_turbofish() {
    let data = vec![1_u8, 3_u8];
    let mut iter = data.into_iter().map_into::<u32>();
    let mut result = Vec::new();
    while let Some(x) = iter.next() {
        result.push(x);
    }
    assert_eq!(result, vec![1_u32, 3_u32]);
}

#[test]
fn test_map_into_len() {
    let data = vec![10_u8, 20, 30, 40];
    let iter = data.into_iter().map_into::<u32>();
    assert_eq!(iter.len(), 4);
}

#[test]
fn test_map_opt_basic() {
    let data = vec![Some(1), None, Some(3)];
    let mut iter = data.into_iter().map_opt(|x| x * 2);
    let mut result = Vec::new();
    while let Some(x) = iter.next() {
        result.push(x);
    }
    assert_eq!(result, vec![Some(2), None, Some(6)]);
}

#[test]
fn test_map_opt_empty() {
    let data: Vec<Option<i32>> = vec![];
    let mut iter = data.into_iter().map_opt(|x| x + 1);
    let mut result = Vec::new();
    while let Some(x) = iter.next() {
        result.push(x);
    }
    assert!(result.is_empty());
}

#[test]
fn test_map_opt_side_effects() {
    let mut count = 0;
    let data = vec![Some(1), None, Some(3)];
    let mut iter = data.into_iter().map_opt(|x| {
        count += 1;
        x * 2
    });
    let mut _result = Vec::new();
    while let Some(x) = iter.next() {
        _result.push(x);
    }
    drop(iter);
    assert_eq!(count, 2);
}

#[test]
fn test_map_opt_len() {
    let data = vec![Some(1), None, Some(3), None];
    let iter = data.into_iter().map_opt(|x| x * 2);
    assert_eq!(iter.len(), 4);
}

#[test]
fn map_res_maps_ok_values_only() {
    let data = vec![Ok(1), Err("some error"), Ok(3)];
    let mut iter = data.into_iter().map_res(|x| x * 2);
    let mut result = Vec::new();
    while let Some(x) = iter.next() {
        result.push(x);
    }
    assert_eq!(result, vec![Ok(2), Err("some error"), Ok(6)]);
}

#[test]
fn map_res_len_counts_every_item() {
    let data: Vec<Result<i32, &str>> = vec![Ok(1), Err("e"), Ok(3)];
    let iter = data.into_iter().map_res(|x| x + 1);
    assert_eq!(iter.len(), 3);
}

#[test]
fn map_res_err_maps_errors_only() {
    let data = vec![Ok(1), Err("unexpected thing happened"), Ok(3)];
    let mut iter = data.into_iter().map_res_err(|err| format!("Oh no: {err}"));
    let mut result = Vec::new();
    while let Some(x) = iter.next() {
        result.push(x);
    }
    assert_eq!(result, vec![Ok(1), Err("Oh no: unexpected thing happened".to_string()), Ok(3)]);
}

#[test]
fn map_res_err_len_counts_every_item() {
    let data: Vec<Result<i32, &str>> = vec![Err("a"), Err("b")];
    let iter = data.into_iter().map_res_err(|e| e.len());
    assert_eq!(iter.len(), 2);
}

#[test]
fn adapters_stop_after_the_last_item() {
    let data = vec![Some(5_i32)];
    let mut iter = data.into_iter().map_opt(|x| x - 1);
    assert_eq!(iter.next(), Some(Some(4)));
    assert_eq!(iter.next(), None);
    assert_eq!(iter.next(), None);
}
