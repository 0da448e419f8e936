use shivarthu::rpc::{Election, Error, ProfileValidation, Shivarthu};
use std::sync::Arc;

#[test]
fn rpc_handles_and_error_codes() {
    let client = Arc::new(7u8);
    let _e: Election<u8, ()> = Election::new(client.clone());
    let _p: ProfileValidation<u8, ()> = ProfileValidation::new(client.clone());
    let _s: Shivarthu<u8, ()> = Shivarthu::new(client.clone());
    assert_eq!(Arc::strong_count(&client), 4);
    assert_eq!(i32::from(Error::RuntimeError), 1);
    assert_eq!(i32::from(Error::DecodeError), 2);
}
