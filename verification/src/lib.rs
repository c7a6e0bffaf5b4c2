//! seed_io: conversion of 3D/CAD interchange files (glTF, STEP, USD, Seed)
//! with the byte-level and text-level logic verified.

pub mod bytes;
pub mod error;
pub mod formats;
pub mod layout;
pub mod registry;
pub mod scene;
pub mod text;
