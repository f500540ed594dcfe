//! Rendering of result trees as indented text.
use crate::reclass::config_file::{ConfigEntryResult, ConfigResult, FieldResult, ReclassResult};
use crate::numtext::usize_to_string;
use vstd::prelude::*;
use vstd::string::*;

verus! {

/// Anything of the result tree that can render itself at an indentation
/// level.
pub trait Printable {
    fn print(&self, indent_level: usize) -> String;
}

/// Two spaces per indentation level (deeper nesting is clamped).
pub fn indent(indent_level: usize) -> (r: String)
    ensures
        r@.len() == 2 * (if indent_level > 4096 {
            4096int
        } else {
            indent_level as int
        }),
{
    proof {
        reveal_strlit("  ");
    }
    let depth = if indent_level > 4096 {
        4096
    } else {
        indent_level
    };
    let mut r = String::new();
    let mut i: usize = 0;
    while i < depth
        invariant
            0 <= i <= depth,
            r@.len() == 2 * i,
            "  "@.len() == 2,
        decreases depth - i,
    {
        r.append("  ");
        i = i + 1;
    }
    r
}

/// The text of one scalar slot, without its kind marker: handled by the
/// kind-specific arms of `FieldResult::print`.
fn failed_text(e: &String) -> (r: String) {
    let mut r = String::from_str("<ERR: ");
    r.append(e.as_str());
    r.append(">");
    r
}

impl Printable for FieldResult {
    /// One line per leaf: the kind in parentheses, then the decoded value
    /// (or the error); pointers show their own address and then their
    /// child; nested structs render their whole block.
    fn print(&self, indent_level: usize) -> String
        decreases *self,
    {
        let mut line = indent(indent_level);
        match self {
            FieldResult::Padding(_) => {
                line.append("~");
                line
            },
            FieldResult::Pointer32(addr, v) => {
                line.append("(*");
                let shown = usize_to_string(*addr);
                line.append(shown.as_str());
                line.append(") ");
                let sub = v.print(0);
                line.append(sub.as_str());
                line
            },
            FieldResult::Pointer64(addr, v) => {
                line.append("(*");
                let shown = usize_to_string(*addr);
                line.append(shown.as_str());
                line.append(") ");
                let sub = v.print(0);
                line.append(sub.as_str());
                line
            },
            FieldResult::ReclassStruct(s) => {
                let sub = s.print(0);
                line.append(sub.as_str());
                line
            },
            _ => {
                match self {
                    FieldResult::U16(_) => line.append("(U16) "),
                    FieldResult::I16(_) => line.append("(I16) "),
                    FieldResult::U32(_) => line.append("(U32) "),
                    FieldResult::I32(_) => line.append("(I32) "),
                    FieldResult::U64(_) => line.append("(U64) "),
                    FieldResult::I64(_) => line.append("(I64) "),
                    FieldResult::U8(_) => line.append("( U8) "),
                    _ => (),
                }
                match self.compare_value() {
                    Some(text) => line.append(text.as_str()),
                    None => {
                        match self {
                            FieldResult::U16(crate::reclass::config_file::ValueResult::Failed(e)) => {
                                let t = failed_text(e);
                                line.append(t.as_str());
                            },
                            FieldResult::I16(crate::reclass::config_file::ValueResult::Failed(e)) => {
                                let t = failed_text(e);
                                line.append(t.as_str());
                            },
                            FieldResult::U32(crate::reclass::config_file::ValueResult::Failed(e)) => {
                                let t = failed_text(e);
                                line.append(t.as_str());
                            },
                            FieldResult::I32(crate::reclass::config_file::ValueResult::Failed(e)) => {
                                let t = failed_text(e);
                                line.append(t.as_str());
                            },
                            FieldResult::U64(crate::reclass::config_file::ValueResult::Failed(e)) => {
                                let t = failed_text(e);
                                line.append(t.as_str());
                            },
                            FieldResult::I64(crate::reclass::config_file::ValueResult::Failed(e)) => {
                                let t = failed_text(e);
                                line.append(t.as_str());
                            },
                            FieldResult::U8(crate::reclass::config_file::ValueResult::Failed(e)) => {
                                let t = failed_text(e);
                                line.append(t.as_str());
                            },
                            _ => line.append("~"),
                        }
                    },
                }
                line
            },
        }
    }
}

impl Printable for ReclassResult {
    /// A header line with the struct's name, then each non-padding field
    /// on a line of its own, one level deeper.
    fn print(&self, indent_level: usize) -> String
        decreases *self,
    {
        let mut out = indent(indent_level);
        out.append("-- ");
        out.append(self.name.as_str());
        out.append(" -- \n");
        let n = self.fields.len();
        let mut i: usize = 0;
        while i < n
            invariant
                0 <= i <= n,
                n == self.fields@.len(),
            decreases n - i,
        {
            let keep = match &self.fields[i].1 {
                FieldResult::Padding(_) => false,
                _ => true,
            };
            if keep {
                let next_level = if indent_level < 4096 {
                    indent_level + 1
                } else {
                    indent_level
                };
                let pad = indent(next_level);
                out.append(pad.as_str());
                out.append(self.fields[i].0.as_str());
                out.append(": ");
                proof {
                    assert(decreases_to!(*self => self.fields));
                    assert(decreases_to!(self.fields => self.fields@));
                    assert(decreases_to!(self.fields@ => self.fields@[i as int]));
                    assert(decreases_to!(self.fields@[i as int] => self.fields@[i as int].1));
                }
                let rendered = (&self.fields[i].1).print(0);
                out.append(rendered.as_str());
                out.append("\n");
            }
            i = i + 1;
        }
        out
    }
}

impl Printable for ConfigEntryResult {
    /// The entry's base address, then its struct one level deeper.
    fn print(&self, indent_level: usize) -> String {
        let mut out = indent(indent_level);
        out.append(":: (*");
        let shown = usize_to_string(self.base_address);
        out.append(shown.as_str());
        out.append(") ::\n");
        let next_level = if indent_level < 4096 {
            indent_level + 1
        } else {
            indent_level
        };
        let sub = self.struct_definition.print(next_level);
        out.append(sub.as_str());
        out
    }
}

impl Printable for ConfigResult {
    /// Every entry's rendering, separated by blank lines.
    fn print(&self, indent_level: usize) -> String {
        let mut out = String::new();
        let n = self.entries.len();
        let mut i: usize = 0;
        while i < n
            invariant
                0 <= i <= n,
                n == self.entries@.len(),
            decreases n - i,
        {
            if i > 0 {
                out.append("\n\n");
            }
            let sub = self.entries[i].print(indent_level);
            out.append(sub.as_str());
            i = i + 1;
        }
        out
    }
}

} // verus!
