[package]
name = "render_core"
version = "0.1.0"
edition = "2021"
publish = false

[dependencies]
generational-arena = "0.2"
gltf = { version = "1", default-features = false, features = ["names"] }
nalgebra = "*"
anyhow = "1"
web-sys = { version = "0.3", features = ["WebGlRenderingContext", "WebGlBuffer", "WebGlProgram", "WebGlShader", "WebGlUniformLocation", "WebGlActiveInfo", "WebGlTexture"] }
