//! A plain model of the JSON surface a configuration uses: numbers,
//! strings, booleans, arrays and objects. Reading and writing actual
//! JSON text is left to the program around the library, which converts
//! to and from this type.
use vstd::prelude::*;

verus! {

/// One configuration value.
#[derive(Debug)]
pub enum ConfigValue {
    Null,
    Bool(bool),
    Num(u64),
    Str(String),
    Arr(Vec<ConfigValue>),
    Obj(Vec<(String, ConfigValue)>),
}

impl ConfigValue {
    /// The entries of an object value.
    pub fn as_obj(&self) -> (r: &Vec<(String, ConfigValue)>)
        requires
            self is Obj,
        ensures
            *self == ConfigValue::Obj(*r),
    {
        match self {
            ConfigValue::Obj(m) => m,
            _ => vstd::pervasive::unreached(),
        }
    }

    /// The elements of an array value.
    pub fn as_arr(&self) -> (r: &Vec<ConfigValue>)
        requires
            self is Arr,
        ensures
            *self == ConfigValue::Arr(*r),
    {
        match self {
            ConfigValue::Arr(a) => a,
            _ => vstd::pervasive::unreached(),
        }
    }

    /// The text of a string value.
    pub fn as_str(&self) -> (r: &String)
        requires
            self is Str,
        ensures
            *self == ConfigValue::Str(*r),
    {
        match self {
            ConfigValue::Str(s) => s,
            _ => vstd::pervasive::unreached(),
        }
    }

    /// A number value truncated to u16, as configuration fields are read.
    pub fn as_u16(&self) -> (r: u16)
        requires
            self is Num,
        ensures
            *self matches ConfigValue::Num(n) && r == n as u16,
    {
        match self {
            ConfigValue::Num(n) => *n as u16,
            _ => vstd::pervasive::unreached(),
        }
    }

    /// A number value truncated to usize.
    pub fn as_usize(&self) -> (r: usize)
        requires
            self is Num,
        ensures
            *self matches ConfigValue::Num(n) && r == n as usize,
    {
        match self {
            ConfigValue::Num(n) => *n as usize,
            _ => vstd::pervasive::unreached(),
        }
    }
}

} // verus!
