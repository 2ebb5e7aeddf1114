use grin_multisig_poc::reduce_mod_order;

fn array(text: &str) -> [u8; 32] {
    let v = hex::decode(text).unwrap();
    let mut a = [0u8; 32];
    a.copy_from_slice(&v);
    a
}

#[test]
fn largest_value_is_reduced() {
    assert_eq!(
        reduce_mod_order(&[0xffu8; 32]),
        array("000000000000000000000000000000014551231950b75fc4402da1732fc9bebe")
    );
}

#[test]
fn group_order_reduces_to_zero() {
    assert_eq!(
        reduce_mod_order(&array(
            "fffffffffffffffffffffffffffffffebaaedce6af48a03bbfd25e8cd0364141"
        )),
        [0u8; 32]
    );
}

#[test]
fn values_below_the_order_are_kept() {
    let below = array("fffffffffffffffffffffffffffffffebaaedce6af48a03bbfd25e8cd0364140");
    assert_eq!(reduce_mod_order(&below), below);
    assert_eq!(reduce_mod_order(&[0x11u8; 32]), [0x11u8; 32]);
    assert_eq!(
        reduce_mod_order(&array(
            "fffffffffffffffffffffffffffffffebaaedce6af48a03bbfd25e8cd0364146"
        )),
        array("0000000000000000000000000000000000000000000000000000000000000005")
    );
}
