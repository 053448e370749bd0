//! Engine core of a trading platform: data feeds, subscription readers, slice
//! synchronisation, live order routing and run orchestration, with every rule
//! stated as a contract and proved.

pub mod algorithm_services;
pub mod artifacts;
pub mod backtest_engine;
pub mod data_feed;
pub mod data_manager;
pub mod decimal;
pub mod engine_config;
pub mod history_service;
pub mod history_subscription;
pub mod live;
pub mod model;
pub mod name_map;
pub mod normalization;
pub mod options_service;
pub mod orders;
pub mod research;
pub mod result_handler;
pub mod runner;
pub mod runtime_context;
pub mod slice;
pub mod slice_synchronizer;
pub mod sorting;
pub mod subscription_data;
pub mod subscription_reader;
pub mod text;
pub mod time;
