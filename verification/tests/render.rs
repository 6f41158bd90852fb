use chinese_numerals::convert_all_fmt;
use chinese_numerals::get_max_unit_index;
use chinese_numerals::digit_str;
use chinese_numerals::Fmt;
use chinese_numerals::ZeroFlag;

#[test]
fn it_works() {
    assert_eq!(get_max_unit_index(0), 0);
    assert_eq!(get_max_unit_index(1), 0);
    assert_eq!(get_max_unit_index(10), 0);
    assert_eq!(get_max_unit_index(100), 0);
    assert_eq!(get_max_unit_index(1000), 0);
    assert_eq!(get_max_unit_index(1_0000), 1);
    assert_eq!(get_max_unit_index(10_0000), 1);
    assert_eq!(get_max_unit_index(100_0000), 1);
    assert_eq!(get_max_unit_index(1000_0000), 1);
    assert_eq!(get_max_unit_index(1_0000_0000), 2);
    assert_eq!(get_max_unit_index(10_0000_0000), 2);
    assert_eq!(get_max_unit_index(100_0000_0000), 2);
    assert_eq!(get_max_unit_index(1000_0000_0000), 2);
    assert_eq!(get_max_unit_index(1_0000_0000_0000), 3);
    assert_eq!(get_max_unit_index(10_0000_0000_0000), 3);
    assert_eq!(get_max_unit_index(100_0000_0000_0000), 3);
    assert_eq!(get_max_unit_index(1000_0000_0000_0000), 3);
    assert_eq!(get_max_unit_index(1_0000_0000_0000_0000), 4);
    assert_eq!(get_max_unit_index(10_0000_0000_0000_0000), 4);
    assert_eq!(get_max_unit_index(100_0000_0000_0000_0000), 4);
    assert_eq!(get_max_unit_index(922_3372_0368_5477_5807), 4);

    assert_eq!(convert_all_fmt(0), "零");
    assert_eq!(convert_all_fmt(1), "一");
    assert_eq!(convert_all_fmt(9), "九");
    assert_eq!(convert_all_fmt(10), "十");
    assert_eq!(convert_all_fmt(11), "十一");
    assert_eq!(convert_all_fmt(111), "一百十一");
    assert_eq!(convert_all_fmt(101), "一百零一");
    assert_eq!(convert_all_fmt(100), "一百");
    assert_eq!(convert_all_fmt(2000), "二千");
    assert_eq!(convert_all_fmt(2_0000), "二万");
    assert_eq!(convert_all_fmt(20_0000), "二十万");
    assert_eq!(convert_all_fmt(2000_0000), "二千万");
    assert_eq!(convert_all_fmt(2_0000_0000), "二亿");
    assert_eq!(convert_all_fmt(20_0000_0000), "二十亿");
    assert_eq!(convert_all_fmt(1_2345), "一万二千三百四十五");
    assert_eq!(convert_all_fmt(1_0345), "一万零三百四十五");
    assert_eq!(convert_all_fmt(1_0045), "一万零四十五");
    assert_eq!(convert_all_fmt(1_0005), "一万零五");
    assert_eq!(convert_all_fmt(1_0000), "一万");
    assert_eq!(convert_all_fmt(10_0450), "十万零四百五十");
    assert_eq!(
        convert_all_fmt(922_3372_0368_5477_5807),
        "九百二十二京三千三百七十二兆零三百六十八亿五千四百七十七万五千八百零七"
    );

    assert_eq!(convert_all_fmt(0), "零");
    assert_eq!(convert_all_fmt(-1), "负一");
    assert_eq!(convert_all_fmt(-9), "负九");
    assert_eq!(convert_all_fmt(-10), "负十");
    assert_eq!(convert_all_fmt(-11), "负十一");
    assert_eq!(convert_all_fmt(-111), "负一百十一");
    assert_eq!(convert_all_fmt(-101), "负一百零一");
    assert_eq!(convert_all_fmt(-100), "负一百");
    assert_eq!(convert_all_fmt(-1_2345), "负一万二千三百四十五");
    assert_eq!(convert_all_fmt(-1_0345), "负一万零三百四十五");
    assert_eq!(convert_all_fmt(-1_0045), "负一万零四十五");
    assert_eq!(convert_all_fmt(-1_0005), "负一万零五");
    assert_eq!(convert_all_fmt(-1_0000), "负一万");
    assert_eq!(convert_all_fmt(-10_0450), "负十万零四百五十");
    assert_eq!(
        convert_all_fmt(-922_3372_0368_5477_5807),
        "负九百二十二京三千三百七十二兆零三百六十八亿五千四百七十七万五千八百零七"
    );

    let fmt = Fmt(1000);
    assert_eq!(format!("{}元", fmt.to_text()), "一千元");
}

#[test]
fn minimum_value_renders_without_overflow() {
    assert_eq!(
        convert_all_fmt(i64::MIN),
        "负九百二十二京三千三百七十二兆零三百六十八亿五千四百七十七万五千八百零八"
    );
    assert_eq!(convert_all_fmt(i64::MAX), convert_all_fmt(-i64::MAX).trim_start_matches('负'));
}

#[test]
fn single_digits() {
    let expected = ["一", "二", "三", "四", "五", "六", "七", "八", "九"];
    for d in 1..=9i64 {
        assert_eq!(convert_all_fmt(d), expected[(d - 1) as usize]);
        assert_eq!(digit_str(d), expected[(d - 1) as usize]);
    }
    assert_eq!(digit_str(0), "");
    assert_eq!(digit_str(10), "");
}

#[test]
fn teens_have_no_leading_one() {
    for d in 10..=19i64 {
        let s = convert_all_fmt(d);
        assert!(s.starts_with('十'));
        assert!(!s.starts_with('一'));
    }
    assert_eq!(convert_all_fmt(19), "十九");
}

#[test]
fn tens_keep_their_digit() {
    assert_eq!(convert_all_fmt(20), "二十");
    assert_eq!(convert_all_fmt(45), "四十五");
    assert_eq!(convert_all_fmt(99), "九十九");
}

#[test]
fn negative_is_prefixed_magnitude() {
    for v in [1i64, 7, 10, 19, 45, 100, 101, 111, 2000, 1_0005, 10_0450, 922_3372_0368_5477_5807] {
        assert_eq!(convert_all_fmt(-v), format!("负{}", convert_all_fmt(v)));
    }
}

#[test]
fn no_double_or_trailing_zero_filler() {
    let samples = [
        0i64,
        1,
        10,
        100,
        101,
        1000,
        1001,
        1010,
        1100,
        1_0000,
        1_0001,
        1_0005,
        1_0045,
        10_0450,
        100_0000,
        1_0000_0001,
        1_0000_0000_0001,
        1_0000_0000_0000_0001,
        922_3372_0368_5477_5807,
        -1_0005,
        -1_0000_0001,
        i64::MIN,
    ];
    for v in samples {
        let s = convert_all_fmt(v);
        assert!(!s.contains("零零"), "double zero in {v}: {s}");
        if v != 0 {
            assert!(!s.ends_with('零'), "trailing zero in {v}: {s}");
        }
    }
}

#[test]
fn bare_group_shifts_by_unit() {
    let units = ["万", "亿", "兆", "京"];
    for (n, unit) in units.iter().enumerate() {
        let weight = 10000i64.pow((n + 1) as u32);
        for k in [1i64, 7, 10, 20, 111, 900, 2024, 9999] {
            if let Some(x) = k.checked_mul(weight) {
                assert_eq!(convert_all_fmt(x), format!("{}{}", convert_all_fmt(k), unit));
            }
        }
    }
}

#[test]
fn zero_flag_transitions() {
    let mut flag = ZeroFlag::new();
    assert!(!flag.should_output());
    flag.reset();
    assert!(!flag.should_output());
    flag.did_output_some_character();
    assert!(!flag.should_output());
    flag.reset();
    assert!(flag.should_output());
    flag.did_output_some_character();
    assert!(!flag.should_output());
}
