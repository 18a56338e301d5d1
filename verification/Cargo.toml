[package]
name = "renderer"
version = "1.0.0"
edition = "2021"
publish = false

[dependencies]
anyhow = "=1.0.104"
thiserror = "=2.0.21"
glam = "=0.29.3"
image = { version = "=0.25.10", default-features = false, features = ["png", "jpeg", "tga", "bmp"] }
gltf = { version = "=1.4.1", features = ["KHR_texture_transform"] }
tobj = "=4.0.5"
ufbx = "=0.11.5"
once_cell = "=1.21.4"
time = { version = "=0.3.55", features = ["formatting", "local-offset"] }
directories = "=6.0.0"
windows = { version = "=0.62.2", features = ["Win32_Foundation", "Win32_Graphics_Gdi", "Win32_System_Com", "Win32_UI_Shell", "Win32_UI_Shell_PropertiesSystem"] }
windows-core = "=0.62.2"
