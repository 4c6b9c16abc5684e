use vstd::prelude::*;
use crate::text::{
    address_text, checksum_text, decimal, function_text, int_text, limbs_value, prefixed_hex,
    push_char, signed_decimal, u64_text, uint_text, upper_digit, word_text,
};
use crate::value::{samples_view, DecodedValue, Sample};

verus! {

/// One byte in upper-case hexadecimal without padding (`A`, `1F`).
pub open spec fn byte_text(b: u8) -> Seq<char> {
    if b < 16 {
        seq![upper_digit(b as nat)]
    } else {
        seq![upper_digit(b as nat / 16), upper_digit(b as nat % 16)]
    }
}

/// The bytes in upper-case hexadecimal, separated by `, `.
pub open spec fn byte_items(b: Seq<u8>) -> Seq<char>
    decreases b.len(),
{
    if b.len() == 0 {
        seq![]
    } else if b.len() == 1 {
        byte_text(b[0])
    } else {
        byte_items(b.drop_last()) + seq![',', ' '] + byte_text(b.last())
    }
}

/// A byte string as a bracketed list: `[1F, A, 0]`.
pub open spec fn bytes_text(b: Seq<u8>) -> Seq<char> {
    seq!['['] + byte_items(b) + seq![']']
}

/// The display text of a decoded value. Composite values join the text of
/// their elements with `, `, with no separator before the first element.
pub open spec fn value_text(v: DecodedValue) -> Seq<char>
    decreases v,
{
    match v {
        DecodedValue::Bool(b) => if b { seq!['t', 'r', 'u', 'e'] } else { seq!['f', 'a', 'l', 's', 'e'] },
        DecodedValue::Int(l, _) => signed_decimal(l@),
        DecodedValue::Uint(l, _) => decimal(limbs_value(l@)),
        DecodedValue::FixedBytes(w, _) => prefixed_hex(w@),
        DecodedValue::Address(a) => checksum_text(a@),
        DecodedValue::Function(f) => prefixed_hex(f@),
        DecodedValue::Bytes(b) => bytes_text(b@),
        DecodedValue::Str(s) => s@,
        DecodedValue::Array(vs) => list_text(vs@),
        DecodedValue::FixedArray(vs) => list_text(vs@),
        DecodedValue::Tuple(vs) => list_text(vs@),
    }
}

/// The text of each value, separated by `, `.
pub open spec fn list_text(vs: Seq<DecodedValue>) -> Seq<char>
    decreases vs,
{
    if vs.len() == 0 {
        seq![]
    } else if vs.len() == 1 {
        value_text(vs[0])
    } else {
        list_text(vs.drop_last()) + seq![',', ' '] + value_text(vs.last())
    }
}

/// The fields of a row: each value's text preceded by `,`.
pub open spec fn fields_text(vs: Seq<DecodedValue>) -> Seq<char>
    decreases vs.len(),
{
    if vs.len() == 0 {
        seq![]
    } else {
        fields_text(vs.drop_last()) + seq![','] + value_text(vs.last())
    }
}

/// One row: the block number, its fields, and a line break.
pub open spec fn row_text(s: (u64, Seq<DecodedValue>)) -> Seq<char> {
    decimal(s.0 as nat) + fields_text(s.1) + seq!['\n']
}

/// All rows, in order.
pub open spec fn table_text(rows: Seq<(u64, Seq<DecodedValue>)>) -> Seq<char>
    decreases rows.len(),
{
    if rows.len() == 0 {
        seq![]
    } else {
        table_text(rows.drop_last()) + row_text(rows.last())
    }
}

fn append(s: &mut String, t: &String)
    ensures
        final(s)@ == old(s)@ + t@,
{
    s.append(t.as_str());
}

/// Writes a byte string as a bracketed list of upper-case hex items.
pub fn format_bytes(b: &Vec<u8>) -> (r: String)
    ensures
        r@ == bytes_text(b@),
{
    let mut s = String::new();
    push_char(&mut s, '[');
    let mut i: usize = 0;
    while i < b.len()
        invariant
            i <= b.len(),
            s@ == seq!['['] + byte_items(b@.subrange(0, i as int)),
        decreases b.len() - i,
    {
        let x = b[i];
        if i > 0 {
            push_char(&mut s, ',');
            push_char(&mut s, ' ');
        }
        let hi = x / 16;
        let lo = x % 16;
        if x >= 16 {
            push_char(&mut s, hex_upper(hi));
        }
        push_char(&mut s, hex_upper(lo));
        proof {
            let p = b@.subrange(0, i as int + 1);
            assert(p.drop_last() =~= b@.subrange(0, i as int));
            assert(p.last() == x);
            if i == 0 {
                assert(p =~= seq![x]);
            }
            if x < 16 {
                assert(hi == 0);
                assert(byte_text(x) =~= seq![upper_digit(lo as nat)]);
            } else {
                assert(byte_text(x) =~= seq![upper_digit(hi as nat), upper_digit(lo as nat)]);
            }
        }
        i = i + 1;
    }
    push_char(&mut s, ']');
    assert(b@.subrange(0, b.len() as int) =~= b@);
    s
}

fn hex_upper(d: u8) -> (c: char)
    requires
        d < 16,
    ensures
        c == upper_digit(d as nat),
{
    match d {
        0 => '0', 1 => '1', 2 => '2', 3 => '3', 4 => '4', 5 => '5', 6 => '6', 7 => '7',
        8 => '8', 9 => '9', 10 => 'A', 11 => 'B', 12 => 'C', 13 => 'D', 14 => 'E', _ => 'F',
    }
}

/// Writes the display text of one decoded value.
pub fn format_value(v: &DecodedValue) -> (r: String)
    ensures
        r@ == value_text(*v),
    decreases v,
{
    match v {
        DecodedValue::Bool(b) => {
            let mut s = String::new();
            if *b {
                push_char(&mut s, 't');
                push_char(&mut s, 'r');
                push_char(&mut s, 'u');
                push_char(&mut s, 'e');
            } else {
                push_char(&mut s, 'f');
                push_char(&mut s, 'a');
                push_char(&mut s, 'l');
                push_char(&mut s, 's');
                push_char(&mut s, 'e');
            }
            assert(s@ =~= value_text(*v));
            s
        },
        DecodedValue::Int(l, _) => int_text(*l),
        DecodedValue::Uint(l, _) => uint_text(*l),
        DecodedValue::FixedBytes(w, _) => word_text(*w),
        DecodedValue::Address(a) => address_text(*a),
        DecodedValue::Function(f) => function_text(*f),
        DecodedValue::Bytes(b) => format_bytes(b),
        DecodedValue::Str(s) => s.clone(),
        DecodedValue::Array(vs) => format_list(vs),
        DecodedValue::FixedArray(vs) => format_list(vs),
        DecodedValue::Tuple(vs) => format_list(vs),
    }
}

/// Writes the text of each value, separated by `, `.
pub fn format_list(vs: &Vec<DecodedValue>) -> (r: String)
    ensures
        r@ == list_text(vs@),
    decreases vs,
{
    let mut s = String::new();
    let mut i: usize = 0;
    while i < vs.len()
        invariant
            i <= vs.len(),
            s@ == list_text(vs@.subrange(0, i as int)),
        decreases vs.len() - i,
    {
        if i > 0 {
            push_char(&mut s, ',');
            push_char(&mut s, ' ');
        }
        proof {
            assert(decreases_to!(vs => vs[i as int]));
        }
        let t = format_value(&vs[i]);
        append(&mut s, &t);
        proof {
            let p = vs@.subrange(0, i as int + 1);
            assert(p.drop_last() =~= vs@.subrange(0, i as int));
            if i == 0 {
                assert(p =~= seq![vs@[0]]);
            }
        }
        i = i + 1;
    }
    assert(vs@.subrange(0, vs.len() as int) =~= vs@);
    s
}

/// Renders samples as comma-separated rows: the block number, then each
/// value's display text preceded by `,`, then a line break.
pub fn generate_csv_from_timestamped_data(data: Vec<Sample>) -> (r: String)
    ensures
        r@ == table_text(samples_view(data@)),
{
    let mut csv = String::new();
    let mut i: usize = 0;
    while i < data.len()
        invariant
            i <= data.len(),
            csv@ == table_text(samples_view(data@.subrange(0, i as int))),
        decreases data.len() - i,
    {
        let row = &data[i];
        let head = u64_text(row.0);
        append(&mut csv, &head);
        let mut j: usize = 0;
        let ghost before = csv@;
        while j < row.1.len()
            invariant
                j <= row.1.len(),
                csv@ == before + fields_text(row.1@.subrange(0, j as int)),
            decreases row.1.len() - j,
        {
            push_char(&mut csv, ',');
            let t = format_value(&row.1[j]);
            append(&mut csv, &t);
            proof {
                let p = row.1@.subrange(0, j as int + 1);
                assert(p.drop_last() =~= row.1@.subrange(0, j as int));
            }
            j = j + 1;
        }
        push_char(&mut csv, '\n');
        proof {
            assert(row.1@.subrange(0, row.1.len() as int) =~= row.1@);
            let p = samples_view(data@.subrange(0, i as int + 1));
            assert(p.drop_last() =~= samples_view(data@.subrange(0, i as int)));
            assert(p.last() == (row.0, row.1@));
        }
        i = i + 1;
    }
    assert(data@.subrange(0, data.len() as int) =~= data@);
    csv
}

} // verus!
