pub mod lua_config;
