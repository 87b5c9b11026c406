//! Verified core of a night-light daemon for Wayland: it warms the colours of
//! every display towards the evening, cools them again in the morning, and
//! dims them on request.
//!
//! The library holds what the daemon decides and computes, each function with
//! a contract that Verus proves:
//!
//! - [`color`]: a colour temperature and a brightness, and the gamma ramps that
//!   realise them, down to the bytes that the display server is given;
//! - [`schedule`]: the time of day, and the configuration that is due at each;
//! - [`dbus_time`]: local time with daylight saving time taken out of it;
//! - [`wayland`]: the gamma control of one output, and the table that follows
//!   every output from its advertisement to its withdrawal;
//! - [`events`]: the single owner of all state, which takes the events in one
//!   by one and says which outputs are due for new ramps;
//! - [`util`]: interpolation and two small helpers.
//!
//! Everything here works on plain values. Talking to the display server, the
//! system bus, the clock and the signal handlers is left to the program that
//! links this library.

pub mod color;
pub mod dbus_time;
pub mod events;
pub mod schedule;
pub mod util;
pub mod wayland;
