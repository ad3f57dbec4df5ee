[package]
name = "osmwater"
version = "0.2.1"
edition = "2021"
publish = false

[dependencies]
anyhow = "1"
clap = { version = "4", features = ["derive"] }
ctrlc = "3"
geo = "*"
geo-types = "0.7"
geojson = { version = "*", features = ["geo-types"] }
postgres = "0.19"
reqwest = { version = "*", features = ["blocking"] }
shapefile = "*"
walkdir = "2"
wkt = "*"
zip-extensions = "*"
