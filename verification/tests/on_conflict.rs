use policyai::OnConflict;

#[test]
fn on_conflict_default() {
    let conflict = OnConflict::default();
    assert_eq!(conflict, OnConflict::Default);
}

#[test]
fn on_conflict_equality() {
    assert_eq!(OnConflict::Default, OnConflict::Default);
    assert_eq!(OnConflict::Agreement, OnConflict::Agreement);
    assert_eq!(OnConflict::LargestValue, OnConflict::LargestValue);
    assert_ne!(OnConflict::Default, OnConflict::Agreement);
    assert_ne!(OnConflict::Agreement, OnConflict::LargestValue);
    assert_ne!(OnConflict::Default, OnConflict::LargestValue);
}

#[test]
fn on_conflict_copy() {
    let original = OnConflict::Agreement;
    let copied = original;
    assert_eq!(original, copied);
}

#[test]
fn on_conflict_debug() {
    assert_eq!(format!("{:?}", OnConflict::Default), "Default");
    assert_eq!(format!("{:?}", OnConflict::Agreement), "Agreement");
    assert_eq!(format!("{:?}", OnConflict::LargestValue), "LargestValue");
}
