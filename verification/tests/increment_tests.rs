use parse_pdms_db::parse_increment_data::increment_modify::check_increase_operate;
use parse_pdms_db::parse_increment_data::NewDataState;

const OWNER: [u8; 8] = [1, 2, 3, 4, 5, 6, 7, 8];
const REFNO: [u8; 8] = [9, 9, 9, 9, 9, 9, 9, 9];

/// A record at `pos` whose owner is `OWNER`.
fn record(len: usize, pos: usize) -> Vec<u8> {
    let mut b = vec![0u8; len];
    b[pos + 12..pos + 20].copy_from_slice(&OWNER);
    b
}

#[test]
fn added_when_listed_under_the_owner() {
    let pos = 400;
    let mut b = record(420, pos);
    // window starts at 100; children list of 5 words at window offset 96
    let at = 100 + 96;
    b[at..at + 4].copy_from_slice(&[0, 2, 0, 5]);
    b[at + 4..at + 12].copy_from_slice(&OWNER);
    b[at + 12..at + 20].copy_from_slice(&REFNO);
    assert_eq!(check_increase_operate(&b, pos, &REFNO), Some(NewDataState::Increase));
    assert_eq!(check_increase_operate(&b, pos, &[7, 7]), None);
}

#[test]
fn owner_occurrences_are_read_from_the_last_one() {
    let pos = 400;
    let mut b = record(420, pos);
    let at = 100 + 96;
    b[at..at + 4].copy_from_slice(&[0, 2, 0, 5]);
    b[at + 4..at + 12].copy_from_slice(&OWNER);
    b[at + 12..at + 20].copy_from_slice(&REFNO);
    // a later occurrence of the owner without a children list
    b[100 + 200..100 + 208].copy_from_slice(&OWNER);
    assert_eq!(check_increase_operate(&b, pos, &REFNO), Some(NewDataState::Increase));
    // an even later occurrence with an empty children list decides first
    b[100 + 250..100 + 254].copy_from_slice(&[0, 2, 0, 0]);
    b[100 + 254..100 + 262].copy_from_slice(&OWNER);
    assert_eq!(check_increase_operate(&b, pos, &REFNO), None);
}

#[test]
fn deleted_when_not_in_the_two_pages_before() {
    let pos = 0x1000 + 8;
    let b = record(pos + 20, pos);
    assert_eq!(check_increase_operate(&b, pos, &REFNO), Some(NewDataState::Delete));
}

#[test]
fn modified_after_a_seven_word() {
    let pos = 0x1000 + 8;
    let mut b = record(pos + 20, pos);
    b[100..108].copy_from_slice(&REFNO);
    assert_eq!(check_increase_operate(&b, pos, &REFNO), None);
    b[pos - 4..pos].copy_from_slice(&[0, 0, 0, 7]);
    assert_eq!(check_increase_operate(&b, pos, &REFNO), Some(NewDataState::Modify));
}
