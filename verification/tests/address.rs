use owl_core::address::Address;

fn v6(groups: [u16; 8]) -> Address {
    let [a, b, c, d, e, f, g, h] = groups;
    Address::V6(a, b, c, d, e, f, g, h)
}

#[test]
fn ipv4_text_is_dotted_decimal() {
    assert_eq!(Address::V4(10, 0, 0, 1).to_text(), "10.0.0.1");
    assert_eq!(Address::V4(0, 0, 0, 0).to_text(), "0.0.0.0");
    assert_eq!(Address::V4(255, 255, 255, 255).to_text(), "255.255.255.255");
    assert_eq!(Address::V4(192, 168, 100, 7).to_text(), "192.168.100.7");
    assert_eq!(Address::V4(9, 10, 99, 100).to_text(), "9.10.99.100");
}

#[test]
fn ipv6_text_compresses_the_longest_zero_run() {
    assert_eq!(v6([0x2001, 0xdb8, 0, 0, 0, 0, 0, 1]).to_text(), "2001:db8::1");
    assert_eq!(v6([0xfe80, 0, 0, 0, 0, 0, 0, 1]).to_text(), "fe80::1");
    assert_eq!(v6([1, 0, 0, 2, 0, 0, 0, 3]).to_text(), "1:0:0:2::3");
    assert_eq!(v6([1, 0, 0, 0, 2, 0, 0, 3]).to_text(), "1::2:0:0:3");
}

#[test]
fn ipv6_text_compresses_the_first_of_equal_runs() {
    assert_eq!(v6([0x2001, 0xdb8, 0, 0, 1, 0, 0, 1]).to_text(), "2001:db8::1:0:0:1");
}

#[test]
fn ipv6_text_keeps_a_single_zero_group() {
    assert_eq!(v6([0x2001, 0xdb8, 0, 1, 1, 1, 1, 1]).to_text(), "2001:db8:0:1:1:1:1:1");
    assert_eq!(v6([1, 0, 2, 0, 3, 0, 4, 0]).to_text(), "1:0:2:0:3:0:4:0");
}

#[test]
fn ipv6_text_at_the_ends() {
    assert_eq!(v6([0, 0, 0, 0, 0, 0, 0, 0]).to_text(), "::");
    assert_eq!(v6([0, 0, 0, 0, 0, 0, 0, 1]).to_text(), "::1");
    assert_eq!(v6([1, 0, 0, 0, 0, 0, 0, 0]).to_text(), "1::");
    assert_eq!(v6([0, 0, 1, 0, 0, 0, 0, 0]).to_text(), "0:0:1::");
}

#[test]
fn ipv6_text_is_lower_case_without_leading_zeros() {
    assert_eq!(
        v6([0xABCD, 0x0EF0, 0x0012, 0x0003, 0xFFFF, 0x1000, 0x0100, 0x0010]).to_text(),
        "abcd:ef0:12:3:ffff:1000:100:10"
    );
}

#[test]
fn ipv6_text_of_a_mapped_address_ends_in_dotted_decimal() {
    assert_eq!(v6([0, 0, 0, 0, 0, 0xffff, 0xc000, 0x0280]).to_text(), "::ffff:192.0.2.128");
    assert_eq!(v6([0, 0, 0, 0, 0, 0xffff, 0, 0]).to_text(), "::ffff:0.0.0.0");
    assert_eq!(v6([0, 0, 0, 0, 0, 0, 0x0102, 0x0304]).to_text(), "::102:304");
}

#[test]
fn ipv6_text_of_well_known_addresses() {
    assert_eq!(v6([0xff02, 0, 0, 0, 0, 0, 0, 2]).to_text(), "ff02::2");
    assert_eq!(v6([0x64, 0xff9b, 0, 0, 0, 0, 0xc000, 0x221]).to_text(), "64:ff9b::c000:221");
    assert_eq!(v6([0x2001, 0xdb8, 0x85a3, 0, 0, 0x8a2e, 0x370, 0x7334]).to_text(), "2001:db8:85a3::8a2e:370:7334");
    assert_eq!(v6([0x2001, 0xdb8, 0, 0, 0, 0xff00, 0x42, 0x8329]).to_text(), "2001:db8::ff00:42:8329");
    assert_eq!(v6([0, 0, 0, 0, 0, 0xfffe, 0xc000, 0x280]).to_text(), "::fffe:c000:280");
    assert_eq!(v6([0, 0, 0, 0, 1, 0xffff, 0xc000, 0x280]).to_text(), "::1:ffff:c000:280");
}

/// The text of eight groups, worked out in one pass over them.
fn one_pass_text(groups: [u16; 8]) -> String {
    if groups[..5] == [0, 0, 0, 0, 0] && groups[5] == 0xffff {
        let [a, b] = groups[6].to_be_bytes();
        let [c, d] = groups[7].to_be_bytes();
        return format!("::ffff:{}.{}.{}.{}", a, b, c, d);
    }
    let (mut best_start, mut best_len) = (0usize, 0usize);
    let (mut start, mut len) = (0usize, 0usize);
    for (i, group) in groups.iter().enumerate() {
        if *group == 0 {
            if len == 0 {
                start = i;
            }
            len += 1;
            if len > best_len {
                best_start = start;
                best_len = len;
            }
        } else {
            len = 0;
        }
    }
    let hex = |part: &[u16]| {
        part.iter().map(|group| format!("{:x}", group)).collect::<Vec<String>>().join(":")
    };
    if best_len > 1 {
        format!("{}::{}", hex(&groups[..best_start]), hex(&groups[best_start + best_len..]))
    } else {
        hex(&groups)
    }
}

#[test]
fn ipv6_text_agrees_with_a_single_pass_over_the_groups() {
    let words: [u16; 5] = [0, 0, 1, 0xffff, 0xab0];
    let mut groups = [0u16; 8];
    let mut count = 0u32;
    let mut code = 0usize;
    while code < 390_625 {
        let mut rest = code;
        for slot in groups.iter_mut() {
            *slot = words[rest % 5];
            rest /= 5;
        }
        assert_eq!(v6(groups).to_text(), one_pass_text(groups));
        count += 1;
        code += 3;
    }
    assert!(count > 100_000);
}

#[test]
fn ipv4_text_agrees_with_formatting_each_octet() {
    for a in 0..=255u8 {
        let b = a.wrapping_mul(7).wrapping_add(3);
        assert_eq!(Address::V4(a, b, 255 - a, 0).to_text(), format!("{}.{}.{}.0", a, b, 255 - a));
    }
}

#[test]
fn family_of_an_address() {
    assert!(!Address::V4(10, 0, 0, 1).is_ipv6());
    assert!(v6([0x2001, 0xdb8, 0, 0, 0, 0, 0, 1]).is_ipv6());
}

#[test]
fn addresses_are_equal_by_value() {
    assert_eq!(Address::V4(10, 0, 0, 1), Address::V4(10, 0, 0, 1));
    assert_ne!(Address::V4(10, 0, 0, 1), Address::V4(10, 0, 0, 2));
    assert_ne!(Address::V4(0, 0, 0, 1), v6([0, 0, 0, 0, 0, 0, 0, 1]));
}
