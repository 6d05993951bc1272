[package]
name = "evtcollect"
version = "0.1.0"
edition = "2021"
publish = false

[dependencies]
xmltree = { version = "=0.12.0", features = ["attribute-order"] }
clap = "=4.6.7"
serde = { version = "=1.0.229", features = ["derive"] }
serde_json = "=1.0.151"
windows = { version = "=0.52.0", features = ["Win32_Foundation", "Win32_System_EventLog", "Win32_System_SystemInformation", "Win32_System_WindowsProgramming"] }
