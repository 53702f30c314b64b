pub mod reactor;
