use c6_lvgl::decimal::{
    format_num_to_str, format_num_with_minus_to_str, format_num_with_plus_to_str,
};

#[test]
fn plain_numbers() {
    let mut buffer = [0u8; 12];
    assert_eq!(format_num_to_str(0, &mut buffer), "0");
    assert_eq!(format_num_to_str(7, &mut buffer), "7");
    assert_eq!(format_num_to_str(10, &mut buffer), "10");
    assert_eq!(format_num_to_str(1000, &mut buffer), "1000");
    assert_eq!(format_num_to_str(u32::MAX, &mut buffer), "4294967295");
}

#[test]
fn numbers_with_plus() {
    let mut buffer = [0u8; 12];
    assert_eq!(format_num_with_plus_to_str(0, &mut buffer), "+0");
    assert_eq!(format_num_with_plus_to_str(100, &mut buffer), "+100");
    assert_eq!(format_num_with_plus_to_str(u32::MAX, &mut buffer), "+4294967295");
}

#[test]
fn numbers_with_minus() {
    let mut buffer = [0u8; 12];
    assert_eq!(format_num_with_minus_to_str(0, &mut buffer), "-0");
    assert_eq!(format_num_with_minus_to_str(99, &mut buffer), "-99");
    assert_eq!(format_num_with_minus_to_str(u32::MAX, &mut buffer), "-4294967295");
}

#[test]
fn rest_of_the_buffer_is_kept() {
    let mut buffer = [b'x'; 6];
    assert_eq!(format_num_with_plus_to_str(42, &mut buffer), "+42");
    assert_eq!(&buffer, b"+42xxx");
    assert_eq!(format_num_to_str(0, &mut buffer), "0");
    assert_eq!(&buffer, b"042xxx");
}

#[test]
fn exact_buffers_are_enough() {
    let mut ten = [0u8; 10];
    assert_eq!(format_num_to_str(u32::MAX, &mut ten), "4294967295");
    let mut two = [0u8; 2];
    assert_eq!(format_num_with_minus_to_str(0, &mut two), "-0");
    let mut one = [0u8; 1];
    assert_eq!(format_num_to_str(9, &mut one), "9");
}

#[test]
fn numbers_read_back() {
    let mut buffer = [0u8; 12];
    let mut n: u64 = 0;
    while n <= u32::MAX as u64 {
        assert_eq!(format_num_to_str(n as u32, &mut buffer).parse(), Ok(n as u32));
        assert_eq!(format_num_with_minus_to_str(n as u32, &mut buffer).parse(), Ok(-(n as i64)));
        n = n * 3 + 1;
    }
}
