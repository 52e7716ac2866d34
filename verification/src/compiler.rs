//! The text that starts every program the code generator writes: the C++
//! includes and the `Value` class that generated code computes with.
use crate::types::append;
use vstd::prelude::*;

verus! {

/// The C++ prelude of generated programs.
pub const PRELUDE: &'static str = r#"
#include<iostream>
#include<vector>

class Value {
public:
  enum class Type {
    Null,
    Int,
    Float,
    String,
    Bool,
  };

  bool is_null() const { return m_type == Type::Null; }
  bool is_int() const { return m_type == Type::Int; }
  bool is_float() const { return m_type == Type::Float; }
  bool is_string() const { return m_type == Type::String; }
  bool is_bool() const { return m_type == Type::Bool; }

  Value() : m_type(Type::Null) {}

  explicit Value(bool value) : m_type(Type::Bool) { m_value.as_bool = value; }
  explicit Value(int64_t value) : m_type(Type::Int) { m_value.as_int = value; }
  explicit Value(float value) : m_type(Type::Float) { m_value.as_float = value; }
  explicit Value(std::string value) : m_type(Type::String) { m_value.as_string = const_cast<char*>(value.c_str()); } 

  std::string to_string() const {
    switch (m_type) {
    case Type::Null:
      return "null";
    case Type::Int:
      return std::to_string(m_value.as_int);
    case Type::Bool:
      return m_value.as_bool ? "true" : "false";
    case Type::String:
      return m_value.as_string;
    case Type::Float:
      return std::to_string(m_value.as_float);
    default:
      std::cout << "nyi" << std::endl;
      exit(2);
    }
  }

private:
  Type m_type{Type::Null};

  union t {
    int64_t as_int;
    float as_float;
    bool as_bool;
    char *as_string;
  } m_value;
};

std::ostream &operator<<(std::ostream &Str, Value const &val) {
  Str << val.to_string() << std::endl;
  return Str;
}"#;

/// Appends the prelude to `output`.
pub fn add_prelude(output: &mut String)
    ensures
        final(output)@ == old(output)@ + PRELUDE@,
{
    append(output, PRELUDE);
}

} // verus!
