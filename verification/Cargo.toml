[package]
name = "async_rewriter"
version = "0.1.0"
edition = "2021"
publish = false

[dependencies]
oxc_allocator = "=0.139.0"
oxc_ast = "=0.139.0"
oxc_parser = "=0.139.0"
oxc_semantic = "=0.139.0"
oxc_span = "=0.139.0"
