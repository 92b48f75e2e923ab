use swap_pool::error::SwapError;
use swap_pool::inplace_cell::InplaceCell;
use swap_pool::size::SizeOf;
use swap_pool::transformer::{SwapIdentityTransformer, SwapTransformer};
use swap_pool::uuid;

#[test]
fn uuid_is_deterministic_and_input_sensitive() {
    assert_eq!(uuid::get(b"p/alpha"), uuid::get(b"p/alpha"));
    assert_ne!(uuid::get(b"p/alpha"), uuid::get(b"p/beta"));
    // The digest is not the input handed back: hashing a single zero
    // byte does not yield zero.
    assert_ne!(uuid::get(&[0u8]), 0);
}

#[test]
fn hex_rendering_matches_known_values() {
    assert_eq!(uuid::to_hex(0), "0".to_string());
    assert_eq!(uuid::to_hex(1), "1".to_string());
    assert_eq!(uuid::to_hex(10), "a".to_string());
    assert_eq!(uuid::to_hex(255), "ff".to_string());
    assert_eq!(uuid::to_hex(0x1a2b3c), "1a2b3c".to_string());
    assert_eq!(uuid::to_hex(u64::MAX), "ffffffffffffffff".to_string());
}

#[test]
fn identity_transformer_hands_bytes_through() {
    let x = SwapIdentityTransformer;
    assert_eq!(x.forward(vec![1, 2, 3]), Some(vec![1, 2, 3]));
    assert_eq!(x.backward(vec![4, 5]), Some(vec![4, 5]));
}

#[test]
fn error_messages_name_their_kind() {
    assert_eq!(SwapError::Io.message(), "swap file input or output failed");
    assert_eq!(SwapError::Serialize.message(), "failed to serialize value to bytes");
    assert_eq!(SwapError::Deserialize.message(), "failed to deserialize value from bytes");
    assert_eq!(SwapError::TransformForward.message(), "failed to transform value forward");
    assert_eq!(SwapError::TransformBackward.message(), "failed to transform value backward");
}

#[test]
fn sizes_of_primitives_and_containers() {
    assert_eq!(0u8.size_of(), 1);
    assert_eq!(0u16.size_of(), 2);
    assert_eq!(0u32.size_of(), 4);
    assert_eq!(0u64.size_of(), 8);
    assert_eq!(0u128.size_of(), 16);
    assert_eq!(0i64.size_of(), 8);
    assert_eq!(true.size_of(), 1);
    assert_eq!('x'.size_of(), 4);
    assert_eq!(().size_of(), 0);
    assert_eq!(vec![1u8, 2, 3].size_of(), 3);
    assert_eq!(vec![1u32, 2, 3].size_of(), 12);
    assert_eq!(Some(7u64).size_of(), 8);
    assert_eq!(None::<u64>.size_of(), 0);
    let ok: Result<u32, u8> = Ok(1);
    let err: Result<u32, u8> = Err(1);
    assert_eq!(ok.size_of(), 4);
    assert_eq!(err.size_of(), 1);
    assert_eq!(Box::new(5u32).size_of(), 4);
    assert_eq!("abc".to_string().size_of(), 3);
}

#[test]
fn cell_stores_and_replaces() {
    let mut c = InplaceCell::new(5i32, true);
    assert_eq!(*c.get_ref(), 5);
    c.replace_by(9);
    assert_eq!(*c.get_ref(), 9);
    assert_eq!(c.get_copy(), 9);
    let taken = c.take_value();
    assert_eq!(taken, 9);
    assert_eq!(*c.get_ref(), 0);
}

#[test]
fn cell_update_applies_the_updater() {
    let mut c = InplaceCell::new(5i32, true);
    c.update(|v| v + 1);
    assert_eq!(*c.get_ref(), 6);
    c.replace(|v| v * 2);
    assert_eq!(*c.get_ref(), 12);
}

#[test]
fn cell_update_result_keeps_value_on_success() {
    let mut c = InplaceCell::new(5i32, true);
    let r: Result<i32, ()> = c.update_result(|v| Ok((v + 1, v)));
    assert_eq!(r, Ok(5));
    assert_eq!(*c.get_ref(), 6);
}

#[test]
fn cell_failed_update_restores_clone_when_thread_safe() {
    let mut c = InplaceCell::new(5i32, true);
    let r: Result<i32, &str> = c.update_result(|_v| Err("no"));
    assert_eq!(r, Err("no"));
    assert_eq!(*c.get_ref(), 5);
}

#[test]
fn cell_failed_update_defaults_when_not_thread_safe() {
    let mut c = InplaceCell::new(5i32, false);
    let r: Result<i32, &str> = c.update_result(|_v| Err("no"));
    assert_eq!(r, Err("no"));
    assert_eq!(*c.get_ref(), 0);
}

#[test]
fn cell_replace_result_follows_the_updater() {
    let mut c = InplaceCell::new(5i32, true);
    let ok: Result<(), ()> = c.replace_result(|v| Ok(v + 10));
    assert_eq!(ok, Ok(()));
    assert_eq!(*c.get_ref(), 15);
    let err: Result<(), &str> = c.replace_result(|_v| Err("no"));
    assert_eq!(err, Err("no"));
    assert_eq!(*c.get_ref(), 15);
}
