use mammon::store::{create_check, open_check, Store};
use mammon::Error;

#[test]
fn round_trip_returns_stored_bytes() {
    let mut st = Store::new();
    st.store("k".to_string(), vec![1u8, 2, 3, 4, 5]).unwrap();
    assert_eq!(st.retrieve(&"k".to_string()).unwrap(), vec![1u8, 2, 3, 4, 5]);
}

#[test]
fn round_trip_many_keys() {
    let mut st = Store::new();
    st.store("alpha".to_string(), vec![10u8, 20]).unwrap();
    st.store("beta".to_string(), vec![30u8]).unwrap();
    st.store("gamma".to_string(), vec![]).unwrap();
    assert_eq!(st.retrieve(&"alpha".to_string()).unwrap(), vec![10u8, 20]);
    assert_eq!(st.retrieve(&"beta".to_string()).unwrap(), vec![30u8]);
    assert_eq!(st.retrieve(&"gamma".to_string()).unwrap(), Vec::<u8>::new());
}

#[test]
fn empty_value_round_trips() {
    let mut st = Store::new();
    st.store("empty".to_string(), vec![]).unwrap();
    assert_eq!(st.retrieve(&"empty".to_string()).unwrap(), Vec::<u8>::new());
}

#[test]
fn overwrite_returns_second_value() {
    let mut st = Store::new();
    st.store("k".to_string(), vec![1u8, 1, 1]).unwrap();
    st.store("k".to_string(), vec![2u8, 2]).unwrap();
    assert_eq!(st.retrieve(&"k".to_string()).unwrap(), vec![2u8, 2]);
    assert_eq!(st.catalog_len(), 1);
    // Both appends stay in the log; the first value's bytes are dead.
    assert_eq!(st.log_size(), 5);
}

#[test]
fn retrieve_missing_key_fails() {
    let st = Store::new();
    assert_eq!(st.retrieve(&"nope".to_string()).unwrap_err(), Error::KeyNotFound);
}

#[test]
fn delete_then_miss() {
    let mut st = Store::new();
    st.store("k".to_string(), vec![9u8, 9]).unwrap();
    st.delete(&"k".to_string()).unwrap();
    assert_eq!(st.retrieve(&"k".to_string()).unwrap_err(), Error::KeyNotFound);
    assert_eq!(st.delete(&"k".to_string()).unwrap_err(), Error::KeyNotFound);
}

#[test]
fn delete_records_freed_location() {
    let mut st = Store::new();
    st.store("a".to_string(), vec![1u8, 2]).unwrap();
    st.store("b".to_string(), vec![3u8]).unwrap();
    assert_eq!(st.empties_len(), 0);
    st.delete(&"a".to_string()).unwrap();
    assert_eq!(st.empties_len(), 1);
    assert_eq!(st.retrieve(&"b".to_string()).unwrap(), vec![3u8]);
}

#[test]
fn log_grows_monotonically() {
    let mut st = Store::new();
    let mut last = st.log_size();
    st.store("a".to_string(), vec![1u8, 2, 3]).unwrap();
    assert!(st.log_size() >= last);
    last = st.log_size();
    st.delete(&"a".to_string()).unwrap();
    assert!(st.log_size() >= last);
    last = st.log_size();
    st.store("a".to_string(), vec![4u8]).unwrap();
    assert!(st.log_size() >= last);
    last = st.log_size();
    st.store("b".to_string(), vec![]).unwrap();
    assert!(st.log_size() >= last);
    assert_eq!(st.log_size(), 4);
}

#[test]
fn create_check_refuses_non_directory() {
    assert_eq!(create_check(true, false).unwrap_err(), Error::ConfigurationError);
    assert!(create_check(true, true).is_ok());
    assert!(create_check(false, false).is_ok());
}

#[test]
fn open_check_refuses_missing_directory() {
    assert_eq!(open_check(false).unwrap_err(), Error::NotInitialized);
    assert!(open_check(true).is_ok());
}
