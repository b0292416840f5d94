pub mod c_lang;
