[package]
name = "foto_a4"
version = "0.1.0"
edition = "2021"
publish = false

[dependencies]
image = { version = "0.25", default-features = false, features = ["bmp", "gif", "jpeg", "png", "tiff", "webp"] }
eframe = { version = "0.31", default-features = false, features = ["default_fonts", "glow", "x11"] }
rfd = { version = "0.15", default-features = false, features = ["gtk3"] }
winapi = { version = "0.3", features = ["combaseapi", "commdlg", "minwindef", "objbase", "unknwnbase", "winbase", "wincodec", "windef", "wingdi", "winnt", "winuser", "wtypesbase"] }
windows = { version = "0.58", features = ["Data_Pdf", "Foundation", "Storage", "Storage_Streams"] }
libheif-rs = "1"
