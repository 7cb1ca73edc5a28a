pub mod tc16;
