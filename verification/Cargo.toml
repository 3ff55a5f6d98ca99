[package]
name = "pcl_rustic"
version = "0.1.0"
edition = "2021"
publish = false

[dependencies]
burn-tensor = { version = "=0.21.0", default-features = false, features = ["std"] }
burn-ndarray = { version = "=0.21.0", default-features = false, features = ["std"] }
las = { version = "=0.11.1", features = ["laz"] }
pyo3 = "=0.29.3"
thiserror = "=2.0.21"
