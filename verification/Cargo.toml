[package]
name = "semdoc"
version = "0.1.0"
edition = "2021"
publish = false

[dependencies]
clap = "2"
colored = "2"
comrak = { version = "0.12", default-features = false }
gloo-file = { version = "0.2", features = ["futures"] }
terminal_size = "0.1"
textwrap = "0.14"
web-sys = { version = "0.3", features = ["File", "FileList", "HtmlInputElement"] }
yew = { version = "0.20", features = ["csr"] }
