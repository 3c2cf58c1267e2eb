[package]
name = "dynprops"
version = "0.1.0"
edition = "2021"
publish = false

[dependencies]
gloo-console = "=0.2.3"
web-sys = { version = "=0.3.106", features = ["Element", "Event", "EventTarget"] }
yew = "=0.19.3"
