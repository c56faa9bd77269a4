[package]
name = "tsong"
version = "0.1.0"
edition = "2021"
publish = false

[dependencies]
alphanumeric-sort = "1"
rand = "0.8"
lsx = "1"
toml = "0.5"
mlua = { version = "0.9", features = ["lua54", "vendored"] }
serde = { version = "1", features = ["derive"] }
serde_json = "1"
rusqlite = { version = "0.24", features = ["bundled"] }
anyhow = "1"
lazy_static = "1"
log = "0.4"
env_logger = "0.8"
concurrent-queue = "1"
libc = "0.2"
arrayref = "0.3"
portaudio = "0.7"
libsoxr = "0.2"
alsa-sys = "0.3"
mpris-player = "0.6"
gtk = "0.9"
gdk = "0.13"
gio = "0.9"
glib = "0.10"
ffmpeg-dev = "0.3"
