pub mod path_resolver;
pub mod validator;
