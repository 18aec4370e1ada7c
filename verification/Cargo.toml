[package]
name = "vcal-parser"
version = "0.1.0"
edition = "2021"
publish = false

[dependencies]
display-interface-spi = "=0.5.0"
embassy-executor = "=0.10.0"
embassy-net = { version = "=0.9.1", features = ["dhcpv4", "dns", "tcp", "udp"] }
embassy-time = "=0.5.1"
embedded-graphics = "=0.8.2"
embedded-hal-bus = "=0.3.0"
esp-alloc = "=0.11.0"
esp-backtrace = "=0.20.0"
esp-bootloader-esp-idf = "=0.6.0"
esp-hal = "=1.1.2"
esp-println = "=0.18.0"
esp-radio = "=0.18.0"
esp-rtos = "=0.3.0"
heapless = "=0.9.3"
log = "=0.4.34"
profont = "=0.7.0"
reqwless = "=0.14.0"
roxmltree = "=0.21.1"
smoltcp = "=0.13.1"
sntpc = "=0.11.0"
static_cell = "=2.1.1"
time = { version = "=0.3.55", default-features = false, features = ["parsing"] }
weact-studio-epd = "=0.1.3"

[dev-dependencies]
nom = "=8.0.0"
