pub mod entrypoint;
