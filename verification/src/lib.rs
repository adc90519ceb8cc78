//! Early-boot runtime logic of an embedded Linux device: factory reset, data
//! partition resizing and the files handed to the device service.
//!
//! A procedure that touches the system is a function of the outcomes on record.
//! It uses them one after another. Where it needs one more, it stops and says
//! which effect to perform: the caller performs it, appends its outcome to the
//! record and calls again, from the start, until the procedure returns or fails.

pub mod bootloader;
pub mod device_service_laws;
pub mod effect;
pub mod error;
pub mod factory_reset;
pub mod json;
pub mod number;
pub mod omnect_device_service;
pub mod path;
pub mod resize_data;
pub mod status_text;
pub mod text;
pub mod text_laws;
