pub mod zkp;
