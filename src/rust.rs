//! Sprite records and their rendering as Rust constant declarations.
use vstd::prelude::*;
use crate::flags::Flags;
use crate::order::Keyed;
use crate::sanitization::{sanitize_variable_name, sanitized};
use crate::text::{decimal, fixed_digits, push_decimal, push_fixed_digits};

verus! {

/// The constants that define one sprite: its name, dimensions, bit-depth flag
/// and packed pixel data.
#[derive(Debug, PartialEq, Eq, PartialOrd, Ord)]
pub struct RustVariables {
    name: String,
    width: u32,
    height: u32,
    flags: Flags,
    data: Vec<u8>,
}

/// Sort key of a text compared character by character.
pub open spec fn text_key(s: Seq<char>) -> Seq<i64> {
    s.map_values(|c: char| c as u32 as i64)
}

/// A byte written as a literal: `0x` and two hexadecimal digits, or in the
/// alternate form `0b` and eight binary digits.
pub open spec fn byte_literal(b: u8, alternate: bool) -> Seq<char> {
    if alternate {
        "0b"@ + fixed_digits(b as nat, 2, 8)
    } else {
        "0x"@ + fixed_digits(b as nat, 16, 2)
    }
}

/// The byte literals of `d` separated by `, `.
pub open spec fn byte_list(d: Seq<u8>, alternate: bool) -> Seq<char>
    decreases d.len(),
{
    if d.len() == 0 {
        seq![]
    } else if d.len() == 1 {
        byte_literal(d[0], alternate)
    } else {
        byte_list(d.drop_last(), alternate) + ", "@ + byte_literal(d.last(), alternate)
    }
}

/// `<prefix>const <name><suffix>: u32 = <value>;` and a line break.
pub open spec fn u32_line(prefix: Seq<char>, name: Seq<char>, suffix: Seq<char>, value: u32) -> Seq<char> {
    prefix + "const "@ + name + suffix + ": u32 = "@ + decimal(value as nat) + ";\n"@
}

/// The flags line: its value, then the flag's name in a comment.
pub open spec fn flags_line(prefix: Seq<char>, name: Seq<char>, flags: Flags) -> Seq<char> {
    prefix + "const "@ + name + "_FLAGS: u32 = "@ + decimal(flags.spec_value() as nat) + "; // "@
        + flags.spec_human_readable() + "\n"@
}

/// The data line: a byte array of the packed pixels.
pub open spec fn data_line(prefix: Seq<char>, name: Seq<char>, data: Seq<u8>, alternate: bool) -> Seq<char> {
    prefix + "const "@ + name + ": [u8; "@ + decimal(data.len()) + "] = ["@ + byte_list(data, alternate)
        + "];\n"@
}

/// The four declaration lines of a sprite, each starting with `prefix`.
pub open spec fn declarations(
    prefix: Seq<char>,
    name: Seq<char>,
    width: u32,
    height: u32,
    flags: Flags,
    data: Seq<u8>,
    alternate: bool,
) -> Seq<char> {
    let n = sanitized(name);
    u32_line(prefix, n, "_WIDTH"@, width) + u32_line(prefix, n, "_HEIGHT"@, height)
        + flags_line(prefix, n, flags) + data_line(prefix, n, data, alternate)
}

fn write_u32_line(out: &mut String, prefix: &str, name: &str, suffix: &str, value: u32)
    ensures
        final(out)@ == old(out)@ + u32_line(prefix@, name@, suffix@, value),
{
    let ghost start = out@;
    out.append(prefix);
    out.append("const ");
    out.append(name);
    out.append(suffix);
    out.append(": u32 = ");
    push_decimal(out, value as u64);
    out.append(";\n");
    assert(out@ =~= start + u32_line(prefix@, name@, suffix@, value));
}

fn write_flags_line(out: &mut String, prefix: &str, name: &str, flags: Flags)
    ensures
        final(out)@ == old(out)@ + flags_line(prefix@, name@, flags),
{
    let ghost start = out@;
    out.append(prefix);
    out.append("const ");
    out.append(name);
    out.append("_FLAGS: u32 = ");
    push_decimal(out, flags.value() as u64);
    out.append("; // ");
    out.append(flags.human_readable_value());
    out.append("\n");
    assert(out@ =~= start + flags_line(prefix@, name@, flags));
}

fn write_byte_list(out: &mut String, data: &Vec<u8>, alternate: bool)
    ensures
        final(out)@ == old(out)@ + byte_list(data@, alternate),
{
    let ghost before_list = out@;
    let mut i: usize = 0;
    while i < data.len()
        invariant
            i <= data@.len(),
            out@ == before_list + byte_list(data@.subrange(0, i as int), alternate),
        decreases data.len() - i,
    {
        let ghost sub = data@.subrange(0, i + 1);
        let ghost prev = out@;
        assert(sub.drop_last() =~= data@.subrange(0, i as int));
        if i > 0 {
            out.append(", ");
        }
        if alternate {
            out.append("0b");
            push_fixed_digits(out, data[i], 2, 8);
        } else {
            out.append("0x");
            push_fixed_digits(out, data[i], 16, 2);
        }
        proof {
            if i == 0 {
                assert(data@.subrange(0, 0) =~= seq![]);
                assert(out@ =~= prev + byte_literal(data@[0], alternate));
            } else {
                assert(out@ =~= prev + ", "@ + byte_literal(data@[i as int], alternate));
            }
        }
        assert(out@ =~= before_list + byte_list(sub, alternate));
        i = i + 1;
    }
    assert(data@.subrange(0, data@.len() as int) =~= data@);
}

fn write_data_line(out: &mut String, prefix: &str, name: &str, data: &Vec<u8>, alternate: bool)
    ensures
        final(out)@ == old(out)@ + data_line(prefix@, name@, data@, alternate),
{
    let ghost start = out@;
    out.append(prefix);
    out.append("const ");
    out.append(name);
    out.append(": [u8; ");
    push_decimal(out, data.len() as u64);
    out.append("] = [");
    write_byte_list(out, data, alternate);
    out.append("];\n");
    assert(out@ =~= start + data_line(prefix@, name@, data@, alternate));
}

impl RustVariables {
    pub closed spec fn spec_name(&self) -> Seq<char> {
        self.name@
    }

    pub closed spec fn spec_width(&self) -> u32 {
        self.width
    }

    pub closed spec fn spec_height(&self) -> u32 {
        self.height
    }

    pub closed spec fn spec_flags(&self) -> Flags {
        self.flags
    }

    pub closed spec fn spec_data(&self) -> Seq<u8> {
        self.data@
    }

    /// The declarations of this sprite, each line starting with `prefix`.
    pub open spec fn text(&self, prefix: Seq<char>, alternate: bool) -> Seq<char> {
        declarations(
            prefix,
            self.spec_name(),
            self.spec_width(),
            self.spec_height(),
            self.spec_flags(),
            self.spec_data(),
            alternate,
        )
    }

    /// Creates the record.
    pub fn new(name: String, width: u32, height: u32, flags: Flags, data: Vec<u8>) -> (r: Self)
        ensures
            r.spec_name() == name@,
            r.spec_width() == width,
            r.spec_height() == height,
            r.spec_flags() == flags,
            r.spec_data() == data@,
    {
        RustVariables { name, width, height, flags, data }
    }

    /// The name, from which the constants' names are made.
    pub fn name(&self) -> (r: &str)
        ensures
            r@ == self.spec_name(),
    {
        self.name.as_str()
    }

    /// The sprite's width in pixels.
    pub fn width(&self) -> (r: u32)
        ensures
            r == self.spec_width(),
    {
        self.width
    }

    /// The sprite's height in pixels.
    pub fn height(&self) -> (r: u32)
        ensures
            r == self.spec_height(),
    {
        self.height
    }

    /// The sprite's bit-depth flag.
    pub fn flags(&self) -> (r: Flags)
        ensures
            r == self.spec_flags(),
    {
        self.flags
    }

    /// The packed pixel data.
    pub fn data(&self) -> (r: &[u8])
        ensures
            r@ == self.spec_data(),
    {
        self.data.as_slice()
    }

    /// Appends the declarations of this sprite to `out`, each line starting
    /// with `prefix`; bytes are in binary when `alternate` is set, else in
    /// hexadecimal.
    pub fn write_declarations(&self, out: &mut String, prefix: &str, alternate: bool)
        ensures
            final(out)@ == old(out)@ + self.text(prefix@, alternate),
    {
        let ghost start = out@;
        let name = sanitize_variable_name(self.name.as_str());
        let ns = name.as_str();
        write_u32_line(out, prefix, ns, "_WIDTH", self.width);
        write_u32_line(out, prefix, ns, "_HEIGHT", self.height);
        write_flags_line(out, prefix, ns, self.flags);
        write_data_line(out, prefix, ns, &self.data, alternate);
        assert(out@ =~= start + self.text(prefix@, alternate));
    }

    /// The declarations of this sprite; bytes are in binary when `alternate`
    /// is set, else in hexadecimal.
    pub fn format(&self, alternate: bool) -> (r: String)
        ensures
            r@ == self.text(seq![], alternate),
    {
        let mut out = String::new();
        self.write_declarations(&mut out, "", alternate);
        proof {
            reveal_strlit("");
        }
        out
    }

    /// The declarations of this sprite, bytes in hexadecimal.
    pub fn to_string(&self) -> (r: String)
        ensures
            r@ == self.text(seq![], false),
    {
        self.format(false)
    }
}

impl Keyed for RustVariables {
    /// Records are ordered by name, then width, height, flag and data.
    open spec fn key(&self) -> Seq<i64> {
        text_key(self.spec_name()) + seq![-1i64, self.spec_width() as i64, self.spec_height() as i64,
            self.spec_flags().spec_value() as i64] + self.spec_data().map_values(|b: u8| b as i64)
    }

    fn sort_key(&self) -> (r: Vec<i64>) {
        let mut r: Vec<i64> = Vec::new();
        let n = self.name.as_str().unicode_len();
        let mut i: usize = 0;
        while i < n
            invariant
                n == self.name@.len(),
                i <= n,
                r@ == text_key(self.name@.subrange(0, i as int)),
            decreases n - i,
        {
            let c = self.name.as_str().get_char(i);
            r.push(c as u32 as i64);
            assert(text_key(self.name@.subrange(0, i + 1)) =~= text_key(self.name@.subrange(0, i as int)).push(c as u32 as i64));
            i = i + 1;
        }
        assert(self.name@.subrange(0, n as int) =~= self.name@);
        r.push(-1);
        r.push(self.width as i64);
        r.push(self.height as i64);
        r.push(self.flags.value() as i64);
        let ghost head = r@;
        let mut j: usize = 0;
        while j < self.data.len()
            invariant
                j <= self.data@.len(),
                r@ == head + self.data@.subrange(0, j as int).map_values(|b: u8| b as i64),
            decreases self.data.len() - j,
        {
            r.push(self.data[j] as i64);
            assert(self.data@.subrange(0, j + 1).map_values(|b: u8| b as i64) =~= self.data@.subrange(0, j as int).map_values(|b: u8| b as i64).push(self.data@[j as int] as i64));
            j = j + 1;
        }
        assert(self.data@.subrange(0, j as int) =~= self.data@);
        assert(r@ =~= self.key());
        r
    }
}

} // verus!
