//! Real-time bus arrivals: the logic behind a web service and a Telegram bot.
pub mod admin;
pub mod api;
pub mod auth;
pub mod console;
pub mod crypto;
pub mod db;
pub mod dialog;
pub mod dotenv;
pub mod miniapp;
pub mod models;
pub mod pages;
pub mod provider;
pub mod render;
pub mod seqs;
pub mod sort;
pub mod stops;
pub mod store;
pub mod telegram;
pub mod text;
pub mod tokens;
pub mod watch;
pub mod web;
