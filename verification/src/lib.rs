//! A time-gated sealing library: the logic of a program that holds an encrypted
//! text and reveals it once its opening time has come.
//!
//! Sealing and opening: `seal` makes a vault, `vault` opens it, by way of the
//! key machine (`rustyvm`, `vmgen`), the digests and key wrapping of `crypto`,
//! `serpent_siv` and `guard`. `primitives` holds what outside crates compute.
//!
//! Time: `ntp` reads the replies of time servers and finds the reading that they
//! agree on, `calendar` turns seconds into dates.
//!
//! Defence: `harden`, `watchdog`, `rolling`, `seccomp`, `selfsig`, `guarded`,
//! `signal` and `pass`.
//!
//! What the user sees: `session` is the course of a run, `report` its words, and
//! `screen`, `script`, `banner`, `progress`, `burn`, `pager` and `dialog` draw.
pub mod banner;
pub mod burn;
pub mod bytes;
pub mod calendar;
pub mod crypto;
pub mod dialog;
pub mod glyph;
pub mod guard;
pub mod guarded;
pub mod harden;
pub mod meta;
pub mod ntp;
pub mod pager;
pub mod pass;
pub mod primitives;
pub mod progress;
pub mod report;
pub mod rolling;
pub mod rustyvm;
pub mod screen;
pub mod script;
pub mod seal;
pub mod seccomp;
pub mod selfsig;
pub mod serpent_siv;
pub mod session;
pub mod shared;
pub mod signal;
pub mod splitmix;
pub mod text;
pub mod vault;
pub mod vmgen;
pub mod watchdog;
pub mod width;
pub mod xorshift;
