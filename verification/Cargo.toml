[package]
name = "snake"
version = "1.0.32"
edition = "2021"
publish = false

[dependencies]
constant_time_eq = "*"
rand = "0.9"
percent-encoding = "2"
ipnet = "2"
serde = { version = "1", features = ["derive"] }
serde_json = "1"
axum = "0.8"
axum-extra = { version = "0.10", features = ["cookie"] }
tokio = { version = "1", features = ["full"] }
tower-http = { version = "0.6", features = ["cors", "limit", "fs"] }
chrono = "0.4"
time = "0.3"
tracing = "0.1"
dotenvy = "0.15"
thiserror = "2"
yew = { version = "0.21", features = ["csr"] }
gloo-timers = "0.3"
web-sys = { version = "0.3", features = ["Window", "Storage", "Document", "HtmlInputElement", "KeyboardEvent", "Event", "EventTarget", "Location", "History", "UrlSearchParams", "Element"] }
js-sys = "0.3"
wasm-bindgen = "0.2"
wasm-bindgen-futures = "0.4"
