use gpui_animation::interpolate::{
    fast_refine, fast_refine_nested, fast_refine_option, interpolate_vec, refine, refine_option,
};

fn mid(a: &i32, b: &i32) -> i32 {
    (a + b) / 2
}

#[test]
fn vec_takes_length_of_target() {
    let r = interpolate_vec(&vec![0, 10], &vec![10, 20, 30], mid);
    assert_eq!(r, vec![5, 15, 30]);
    let r = interpolate_vec(&vec![0, 10, 20], &vec![10], mid);
    assert_eq!(r, vec![5]);
    let r = interpolate_vec(&Vec::<i32>::new(), &vec![1, 2], mid);
    assert_eq!(r, vec![1, 2]);
    let r = interpolate_vec(&vec![1, 2], &Vec::<i32>::new(), mid);
    assert!(r.is_empty());
}

#[test]
fn refine_interpolates_only_differences() {
    assert_eq!(refine(&0, &10, mid), 5);
    let r = refine(&4, &4, |_: &i32, _: &i32| -> i32 { panic!("equal values are not blended") });
    assert_eq!(r, 4);
}

#[test]
fn refine_option_cases() {
    assert_eq!(refine_option(&Some(0), &Some(10), mid), Some(5));
    assert_eq!(refine_option(&Some(3), &Some(3), mid), Some(3));
    assert_eq!(refine_option(&None, &Some(10), mid), Some(10));
    assert_eq!(refine_option(&Some(10), &None, mid), None);
    assert_eq!(refine_option::<i32, _>(&None, &None, mid), None);
}

#[test]
fn fast_refine_writes_only_differences() {
    let mut out = 100;
    fast_refine(&0, &10, &mut out, mid);
    assert_eq!(out, 5);
    let mut out = 100;
    fast_refine(&3, &3, &mut out, mid);
    assert_eq!(out, 100);
}

#[test]
fn fast_refine_option_cases() {
    let mut out = Some(100);
    fast_refine_option(&Some(0), &Some(10), &mut out, mid);
    assert_eq!(out, Some(5));
    let mut out = Some(100);
    fast_refine_option(&None, &Some(10), &mut out, mid);
    assert_eq!(out, Some(100));
    let mut out = None;
    fast_refine_option(&Some(1), &Some(1), &mut out, mid);
    assert_eq!(out, None);
}

#[test]
fn fast_refine_nested_cases() {
    let blend = |a: &i32, b: &i32, cur: &i32| a + b + cur;
    let mut out = Some(100);
    fast_refine_nested(&Some(1), &Some(2), &mut out, blend);
    assert_eq!(out, Some(103));
    let mut out = None;
    fast_refine_nested(&None, &Some(2), &mut out, blend);
    assert_eq!(out, Some(2));
    let mut out = Some(7);
    fast_refine_nested(&Some(2), &Some(2), &mut out, blend);
    assert_eq!(out, Some(7));
    let mut out = Some(7);
    fast_refine_nested(&Some(2), &None, &mut out, blend);
    assert_eq!(out, Some(7));
}
