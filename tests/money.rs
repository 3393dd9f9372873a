use calculator::money::{convert_chunk, convert_digits, split_chunk};
use std::collections::HashMap;

fn split(num: f64) -> Option<(Vec<char>, [char; 2])> {
    if num.is_sign_negative() || (!num.is_normal() && num != 0.0) {
        return None;
    }
    let num = format!("{}", num);
    let num: Vec<&str> = num.split('.').collect();
    let mut fracs = ['0'; 2];
    if num.len() == 2 {
        let mut cs = num[1].chars();
        fracs[0] = cs.next().unwrap_or('0');
        fracs[1] = cs.next().unwrap_or('0');
    }
    Some((num[0].chars().collect(), fracs))
}

fn convert(num: f64) -> Option<String> {
    let (int, frac) = split(num)?;
    convert_digits(int, frac)
}

#[test]
fn test_split_chunk() {
    let mut int = vec!['2', '3', '4', '5', '6'];
    assert_eq!(split_chunk(&mut int), ['3', '4', '5', '6']);
    assert_eq!(split_chunk(&mut int), ['0', '0', '0', '2']);
    assert_eq!(int, Vec::<char>::new());
    assert_eq!(split_chunk(&mut int), ['0', '0', '0', '0']);
}

#[test]
fn test_convert_chunk() {
    let prefix = ["仟", "佰", "拾", ""];
    let transer = HashMap::from([
        ('0', "零"),
        ('1', "壹"),
        ('2', "贰"),
        ('3', "叁"),
        ('4', "肆"),
        ('5', "伍"),
        ('6', "陆"),
        ('7', "柒"),
        ('8', "捌"),
        ('9', "玖"),
    ]);
    let primary = "#";
    let f = |chunk: &[char; 4]| convert_chunk(chunk, &prefix, &transer, primary);

    let chunk = ['1', '2', '3', '4'];
    assert_eq!(f(&chunk), (String::from("壹仟贰佰叁拾肆#"), (false, false)));

    let chunk = ['0', '0', '1', '2'];
    assert_eq!(f(&chunk), (String::from("壹拾贰#"), (true, false)));

    let chunk = ['1', '0', '3', '4'];
    assert_eq!(f(&chunk), (String::from("壹仟零叁拾肆#"), (false, false)));

    let chunk = ['1', '0', '0', '4'];
    assert_eq!(f(&chunk), (String::from("壹仟零肆#"), (false, false)));

    let chunk = ['1', '0', '0', '0'];
    assert_eq!(f(&chunk), (String::from("壹仟#"), (false, true)));

    let chunk = ['0', '0', '0', '0'];
    assert_eq!(f(&chunk), (String::new(), (true, true)));
}

#[test]
fn test_convert() {
    let num = 1_2345.67;
    assert_eq!(convert(num).unwrap(), String::from("壹万贰仟叁佰肆拾伍圆陆角柒分"));

    let num = 100_2345.67;
    assert_eq!(convert(num).unwrap(), String::from("壹佰万零贰仟叁佰肆拾伍圆陆角柒分"));

    let num = 1_0000_2345.67;
    assert_eq!(convert(num).unwrap(), String::from("壹亿零贰仟叁佰肆拾伍圆陆角柒分"));

    let num = 10_1010_2345.67;
    assert_eq!(convert(num).unwrap(), String::from("壹拾亿零壹仟零壹拾万零贰仟叁佰肆拾伍圆陆角柒分"));

    let num = 101_0110_0345.67;
    assert_eq!(convert(num).unwrap(), String::from("壹佰零壹亿零壹佰壹拾万零叁佰肆拾伍圆陆角柒分"));

    let num = 1_2345.0;
    assert_eq!(convert(num).unwrap(), String::from("壹万贰仟叁佰肆拾伍圆整"));

    let num = 1_2345.07;
    assert_eq!(convert(num).unwrap(), String::from("壹万贰仟叁佰肆拾伍圆柒分"));

    let num = 1_2345.6;
    assert_eq!(convert(num).unwrap(), String::from("壹万贰仟叁佰肆拾伍圆陆角"));

    let num = 0.67;
    assert_eq!(convert(num).unwrap(), String::from("陆角柒分"));

    let num = 0.0;
    assert_eq!(convert(num).unwrap(), String::from(""));

    let num = f64::INFINITY;
    assert_eq!(convert(num), None);

    let num = f64::NAN;
    assert_eq!(convert(num), None);

    let num = -1.0;
    assert_eq!(convert(num), None);
}

#[test]
fn too_many_digits() {
    let digits: Vec<char> = "12345678901234567".chars().collect();
    assert_eq!(convert_digits(digits, ['0', '0']), None);
    let digits: Vec<char> = "1234567890123456".chars().collect();
    assert!(convert_digits(digits, ['0', '0']).is_some());
}

#[test]
fn missing_digit_name_reads_as_question_mark() {
    let prefix = ["仟", "佰", "拾", ""];
    let transer = HashMap::from([('1', "壹")]);
    assert_eq!(convert_chunk(&['1', '2', '0', '0'], &prefix, &transer, "#"), (String::from("壹仟?佰#"), (false, true)));
}
