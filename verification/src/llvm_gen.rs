pub mod var_collecter;
