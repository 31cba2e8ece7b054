[package]
name = "twitch_1337"
version = "0.1.0"
edition = "2021"
publish = false

[dependencies]
async-trait = "0.1"
chrono = "0.4"
chrono-tz = "0.10"
color-eyre = "0.6"
csv = "1"
eyre = "0.6"
notify-debouncer-mini = "*"
rand = "0.10"
reqwest = { version = "*", default-features = false, features = ["json", "query"] }
ron = "*"
rustls = { version = "0.23", default-features = false, features = ["ring", "std", "tls12"] }
scraper = { version = "*", default-features = false }
secrecy = { version = "0.10", features = ["serde"] }
serde = { version = "1", features = ["derive"] }
serde_json = "1"
tokio = { version = "1", features = ["full"] }
toml = "*"
tracing = "0.1"
tracing-error = "0.2"
tracing-subscriber = { version = "0.3", features = ["env-filter"] }
twitch-irc = { version = "*", default-features = false, features = ["transport-tcp", "refreshing-token-rustls-webpki-roots", "transport-tcp-rustls-webpki-roots", "with-serde"] }
