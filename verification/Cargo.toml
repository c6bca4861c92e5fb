[package]
name = "bbtools"
version = "0.1.0"
edition = "2021"
publish = false

[dependencies]
byteorder = "1"
num-bigint = "0.4"
sha1 = "0.10"
pathdiff = "0.2"
glam = "*"
gltf = { version = "1", default-features = false, features = ["names", "extras", "KHR_texture_transform", "KHR_materials_emissive_strength"] }
serde_json = "1"
flate2 = "1"
tar = "0.4"
