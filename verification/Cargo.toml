[package]
name = "pdxindoorsoccer_ical"
version = "0.1.0"
edition = "2021"
publish = false

[dependencies]
caseless = "*"
chrono = "*"
chrono-tz = "*"
encoding_rs = "*"
futures = "*"
heck = "*"
icalendar = "*"
reqwest = { version = "*", default-features = false }
structopt = "*"
