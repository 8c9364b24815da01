pub mod calendar;
pub mod login;
pub mod logout;
pub mod pages;
pub mod records;
pub mod dashboard;
pub mod user;
