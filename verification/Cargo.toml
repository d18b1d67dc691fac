[package]
name = "ball"
version = "0.1.0"
edition = "2021"
publish = false

[dependencies]
arrayvec = "0.4"
bincode = "1"
byteorder = "1"
colored = "1"
crossbeam = "0.7"
ctrlc = "3"
easer = "*"
gfx-backend-vulkan = "0.1"
gfx-hal = "0.1"
imgui = "0.0.22"
imgui-gfx-hal = "*"
imgui-winit = "*"
lazy_static = "1"
log = "0.4"
mio = "0.6"
mio-extras = "2"
nalgebra = "0.17"
ord_subset = "3"
palette = "0.4"
parking_lot = "0.7"
rand = "0.6"
serde = { version = "1", features = ["derive"] }
smallvec = "0.6"
structopt = "0.2"
take_mut = "0.2"
winit = "0.18"
