pub mod init;
pub mod test;
