//! The version resource of a Portable Executable file, read from the file's
//! bytes: where it is found, and the file and product versions in it.
use vstd::prelude::*;

use crate::text::{decimal, hex_upper, push_decimal, push_hex_upper, push_str, string_from_str};
use super::{Version, VersionView, IdView, version_of};

verus! {

broadcast use vstd::string::group_string_axioms;

/// The message of a read that runs past the end of the data.
pub open spec fn eof_message() -> Seq<char> {
    "failed to fill whole buffer"@
}

/// The message of a seek past the end of a region whose length is limited.
pub open spec fn invalid_seek_message() -> Seq<char> {
    "invalid input parameter"@
}

/// The little-endian 16-bit number at a position, where the data hold one.
pub open spec fn u16_at(d: Seq<u8>, at: int) -> Option<int> {
    if 0 <= at && at + 2 <= d.len() {
        Some(d[at] as int + 256 * (d[at + 1] as int))
    } else {
        None
    }
}

/// The little-endian 32-bit number at a position, where the data hold one.
pub open spec fn u32_at(d: Seq<u8>, at: int) -> Option<int> {
    if 0 <= at && at + 4 <= d.len() {
        Some(
            d[at] as int + 256 * (d[at + 1] as int) + 65536 * (d[at + 2] as int) + 16777216 * (
            d[at + 3] as int),
        )
    } else {
        None
    }
}

/// A 32-bit sum or difference as it wraps around.
pub open spec fn wrap32(x: int) -> int {
    x % 0x1_0000_0000
}

fn u16_at_exec(d: &[u8], at: u64) -> (r: Option<u64>)
    ensures
        match r {
            Some(v) => u16_at(d@, at as int) == Some(v as int),
            None => u16_at(d@, at as int) is None,
        },
{
    let n = d.len() as u64;
    if at <= n && n - at >= 2 {
        let i = at as usize;
        Some(d[i] as u64 + 256 * (d[i + 1] as u64))
    } else {
        None
    }
}

fn u32_at_exec(d: &[u8], at: u64) -> (r: Option<u64>)
    ensures
        match r {
            Some(v) => u32_at(d@, at as int) == Some(v as int) && v < 0x1_0000_0000,
            None => u32_at(d@, at as int) is None,
        },
{
    let n = d.len() as u64;
    if at <= n && n - at >= 4 {
        let i = at as usize;
        Some(
            d[i] as u64 + 256 * (d[i + 1] as u64) + 65536 * (d[i + 2] as u64) + 16777216 * (d[i
                + 3] as u64),
        )
    } else {
        None
    }
}

/// The number of sections and the size of the optional header, from the COFF
/// file header at position `c`; the optional header is required.
pub open spec fn coff_header(f: Seq<u8>, c: int) -> Result<(int, int), Seq<char>> {
    match u16_at(f, c + 2) {
        None => Err(eof_message()),
        Some(sections) => match u16_at(f, c + 16) {
            None => Err(eof_message()),
            Some(size) => if size == 0 {
                Err("COFF optional header is unexpectedly missing"@)
            } else {
                Ok((sections, size))
            },
        },
    }
}

/// The resource table's data directory (its address and size) from the
/// optional header at position `o` of the given size, where the header has
/// one, and the position after the data directories. Reads stay within the
/// header's declared size.
pub open spec fn optional_header(f: Seq<u8>, o: int, size: int) -> Result<
    (Option<(int, int)>, int),
    Seq<char>,
> {
    if size < 2 || o + 2 > f.len() {
        Err(eof_message())
    } else {
        let magic = u16_at(f, o).unwrap();
        let r = if magic == 0x10b {
            92int
        } else {
            108int
        };
        if r > size {
            Err(invalid_seek_message())
        } else if r + 4 > size || u32_at(f, o + r) is None {
            Err(eof_message())
        } else {
            let n = u32_at(f, o + r).unwrap();
            let end = o + r + 4 + 8 * n;
            if r + 4 + 8 * n > size || end > f.len() {
                Err(eof_message())
            } else if n > 2 {
                Ok(
                    (
                        Some((u32_at(f, o + r + 20).unwrap(), u32_at(f, o + r + 24).unwrap())),
                        end,
                    ),
                )
            } else {
                Ok((None, end))
            }
        }
    }
}

/// The optional header of a PE32+ image (magic `0x20B`) gives its count of
/// data directories (`NumberOfRvaAndSizes`) at offset 108 and its data
/// directories from offset 112 on, eight bytes each, the third being the
/// resource table's address and size; so reading it finds the resource table
/// there, where the header is as long as its directories.
pub proof fn lemma_pe32_plus_optional_header(f: Seq<u8>, o: int, size: int, n: int)
    requires
        0 <= o,
        o + 2 <= f.len(),
        f[o] == 0x0B,
        f[o + 1] == 0x02,
        u32_at(f, o + 108) == Some(n),
        112 + 8 * n <= size,
        o + 112 + 8 * n <= f.len(),
    ensures
        optional_header(f, o, size) == Ok::<(Option<(int, int)>, int), Seq<char>>(
            (
                if n > 2 {
                    Some((u32_at(f, o + 128).unwrap(), u32_at(f, o + 132).unwrap()))
                } else {
                    None
                },
                o + 112 + 8 * n,
            ),
        ),
{
}

/// The optional header of a PE32 image (magic `0x10B`) gives its count of
/// data directories at offset 92 and its data directories from offset 96 on,
/// eight bytes each, the third being the resource table's address and size.
pub proof fn lemma_pe32_optional_header(f: Seq<u8>, o: int, size: int, n: int)
    requires
        0 <= o,
        o + 2 <= f.len(),
        f[o] == 0x0B,
        f[o + 1] == 0x01,
        u32_at(f, o + 92) == Some(n),
        96 + 8 * n <= size,
        o + 96 + 8 * n <= f.len(),
    ensures
        optional_header(f, o, size) == Ok::<(Option<(int, int)>, int), Seq<char>>(
            (
                if n > 2 {
                    Some((u32_at(f, o + 112).unwrap(), u32_at(f, o + 116).unwrap()))
                } else {
                    None
                },
                o + 96 + 8 * n,
            ),
        ),
{
}

/// Whether a resource entry's offset leads to a further table.
pub open spec fn is_table(x: int) -> bool {
    x >= 0x8000_0000
}

pub open spec fn entry_offset(x: int) -> int {
    if is_table(x) {
        x - 0x8000_0000
    } else {
        x
    }
}

/// The entries of the resource directory table at position `o`: pairs of a
/// name or ID and an offset.
pub open spec fn table_entries(t: Seq<u8>, o: int) -> Result<Seq<(int, int)>, Seq<char>> {
    match (u16_at(t, o + 12), u16_at(t, o + 14)) {
        (Some(names), Some(ids)) => if o + 16 + 8 * (names + ids) <= t.len() {
            Ok(
                Seq::new(
                    (names + ids) as nat,
                    |k: int| (u32_at(t, o + 16 + 8 * k).unwrap(), u32_at(t, o + 20 + 8 * k).unwrap()),
                ),
            )
        } else {
            Err(eof_message())
        },
        _ => Err(eof_message()),
    }
}

/// The address and size from the resource data entry at a position.
pub open spec fn data_entry(t: Seq<u8>, o: int) -> Result<Option<(int, int)>, Seq<char>> {
    match (u32_at(t, o), u32_at(t, o + 4)) {
        (Some(rva), Some(size)) => Ok(Some((rva, size))),
        _ => Err(eof_message()),
    }
}

/// The data entry of the first language entry, from position `k` on, that
/// is not a further table.
pub open spec fn language_loop(t: Seq<u8>, langs: Seq<(int, int)>, k: int) -> Result<
    Option<(int, int)>,
    Seq<char>,
>
    decreases langs.len() - k,
{
    if k < 0 || k >= langs.len() {
        Ok(None)
    } else if !is_table(langs[k].1) {
        data_entry(t, entry_offset(langs[k].1))
    } else {
        language_loop(t, langs, k + 1)
    }
}

/// The data entry found under the name entries from position `j` on.
pub open spec fn name_loop(t: Seq<u8>, names: Seq<(int, int)>, j: int) -> Result<
    Option<(int, int)>,
    Seq<char>,
>
    decreases names.len() - j,
{
    if j < 0 || j >= names.len() {
        Ok(None)
    } else if is_table(names[j].1) {
        match table_entries(t, entry_offset(names[j].1)) {
            Err(e) => Err(e),
            Ok(langs) => match language_loop(t, langs, 0) {
                Ok(None) => name_loop(t, names, j + 1),
                r => r,
            },
        }
    } else {
        name_loop(t, names, j + 1)
    }
}

/// The version resource's data entry found under the root entries from
/// position `i` on: those with the ID of version resources that lead to a
/// table.
pub open spec fn root_loop(t: Seq<u8>, roots: Seq<(int, int)>, i: int) -> Result<
    Option<(int, int)>,
    Seq<char>,
>
    decreases roots.len() - i,
{
    if i < 0 || i >= roots.len() {
        Ok(None)
    } else if roots[i].0 == 16 && is_table(roots[i].1) {
        match table_entries(t, entry_offset(roots[i].1)) {
            Err(e) => Err(e),
            Ok(names) => match name_loop(t, names, 0) {
                Ok(None) => root_loop(t, roots, i + 1),
                r => r,
            },
        }
    } else {
        root_loop(t, roots, i + 1)
    }
}

/// The version resource's data entry in a resource table.
pub open spec fn resource_tables(t: Seq<u8>) -> Result<Option<(int, int)>, Seq<char>> {
    match table_entries(t, 0) {
        Err(e) => Err(e),
        Ok(roots) => root_loop(t, roots, 0),
    }
}

/// The version data that a resource table holds; its address is relative to
/// that of the section that holds the table.
pub open spec fn version_data(t: Seq<u8>, section_address: int) -> Result<
    Option<Seq<u8>>,
    Seq<char>,
> {
    match resource_tables(t) {
        Err(e) => Err(e),
        Ok(None) => Ok(None),
        Ok(Some((rva, size))) => {
            let start = wrap32(rva - section_address);
            if start + size <= t.len() {
                Ok(Some(t.subrange(start, start + size)))
            } else {
                Err(eof_message())
            }
        },
    }
}

/// The version data found in the sections from the `i`th on, the section
/// table entries starting at position `p`: the first section that contains
/// the resource table's directory holds it.
pub open spec fn sections_from(
    f: Seq<u8>,
    p: int,
    n: int,
    i: int,
    dir_address: int,
    dir_size: int,
) -> Result<Option<Seq<u8>>, Seq<char>>
    decreases n - i,
{
    if i >= n {
        Ok(None)
    } else if p + 24 > f.len() {
        Err(eof_message())
    } else {
        let virtual_size = u32_at(f, p + 8).unwrap();
        let address = u32_at(f, p + 12).unwrap();
        let raw_size = u32_at(f, p + 16).unwrap();
        let raw_offset = u32_at(f, p + 20).unwrap();
        let actual = if raw_size <= virtual_size {
            raw_size
        } else {
            virtual_size
        };
        let contains = dir_address >= address && wrap32(dir_address + dir_size) <= wrap32(
            address + actual,
        );
        if contains {
            let start = wrap32(raw_offset + (dir_address - address));
            if start + dir_size <= f.len() {
                version_data(f.subrange(start, start + dir_size), address)
            } else {
                Err(eof_message())
            }
        } else {
            sections_from(f, p + 40, n, i + 1, dir_address, dir_size)
        }
    }
}

/// The data of the version resource of a Portable Executable file, where it
/// has one, or the message of what stopped the reading.
pub open spec fn version_resource(f: Seq<u8>) -> Result<Option<Seq<u8>>, Seq<char>> {
    if f.len() < 2 {
        Err(eof_message())
    } else if f[0] != 0x4D || f[1] != 0x5A {
        Err("Unknown file magic"@)
    } else {
        match u16_at(f, 0x3C) {
            None => Err(eof_message()),
            Some(pe) => if pe + 4 > f.len() {
                Err(eof_message())
            } else if !(f[pe] == 0x50 && f[pe + 1] == 0x45 && f[pe + 2] == 0 && f[pe + 3] == 0) {
                Err("Unexpected PE header magic bytes"@)
            } else {
                match coff_header(f, pe + 4) {
                    Err(e) => Err(e),
                    Ok((sections, size)) => match optional_header(f, pe + 24, size) {
                        Err(e) => Err(e),
                        Ok((None, _)) => Ok(None),
                        Ok((Some((address, dir_size)), end)) => sections_from(
                            f,
                            end,
                            sections,
                            0,
                            address,
                            dir_size,
                        ),
                    },
                }
            },
        }
    }
}

fn eof() -> (r: String)
    ensures
        r@ == eof_message(),
{
    crate::text::string_from_str("failed to fill whole buffer")
}

fn message(s: &str) -> (r: String)
    ensures
        r@ == s@,
{
    crate::text::string_from_str(s)
}

fn coff_header_exec(f: &[u8], c: u64) -> (r: Result<(u64, u64), String>)
    requires
        c < 0x1_0000_0000_0000,
    ensures
        match r {
            Ok((n, size)) => coff_header(f@, c as int) == Ok::<(int, int), Seq<char>>(
                (n as int, size as int),
            ),
            Err(e) => coff_header(f@, c as int) == Err::<(int, int), Seq<char>>(e@),
        },
{
    match u16_at_exec(f, c + 2) {
        None => Err(eof()),
        Some(sections) => match u16_at_exec(f, c + 16) {
            None => Err(eof()),
            Some(size) => {
                if size == 0 {
                    Err(message("COFF optional header is unexpectedly missing"))
                } else {
                    Ok((sections, size))
                }
            },
        },
    }
}

fn optional_header_exec(f: &[u8], o: u64, size: u64) -> (r: Result<
    (Option<(u64, u64)>, u64),
    String,
>)
    requires
        o < 0x1_0000_0000,
        size < 0x1_0000,
    ensures
        r matches Ok((_, end)) ==> end < 0x100_0000_0000,
        match r {
            Ok((Some((a, s)), end)) => optional_header(f@, o as int, size as int) == Ok::<
                (Option<(int, int)>, int),
                Seq<char>,
            >((Some((a as int, s as int)), end as int)),
            Ok((None, end)) => optional_header(f@, o as int, size as int) == Ok::<
                (Option<(int, int)>, int),
                Seq<char>,
            >((None, end as int)),
            Err(e) => optional_header(f@, o as int, size as int) == Err::<
                (Option<(int, int)>, int),
                Seq<char>,
            >(e@),
        },
{
    let len = f.len() as u64;
    if size < 2 || o + 2 > len {
        return Err(eof());
    }
    let magic = match u16_at_exec(f, o) {
        Some(m) => m,
        None => {
            return Err(eof());
        },
    };
    let r: u64 = if magic == 0x10b {
        92
    } else {
        108
    };
    if r > size {
        return Err(message("invalid input parameter"));
    }
    if r + 4 > size {
        return Err(eof());
    }
    let n = match u32_at_exec(f, o + r) {
        Some(n) => n,
        None => {
            return Err(eof());
        },
    };
    let end = o + r + 4 + 8 * n;
    if r + 4 + 8 * n > size || end > len {
        return Err(eof());
    }
    if n > 2 {
        let a = u32_at_exec(f, o + r + 20);
        let s = u32_at_exec(f, o + r + 24);
        match (a, s) {
            (Some(a), Some(s)) => Ok((Some((a, s)), end)),
            _ => Err(eof()),
        }
    } else {
        Ok((None, end))
    }
}

/// Reads the entries of the resource directory table at position `o`.
fn table_entries_exec(t: &[u8], o: u64) -> (r: Result<Vec<(u64, u64)>, String>)
    requires
        o < 0x1_0000_0000_0000,
    ensures
        match r {
            Ok(v) => table_entries(t@, o as int) matches Ok(es) && es == v@.map_values(
                |e: (u64, u64)| (e.0 as int, e.1 as int),
            ) && forall|k: int| 0 <= k < v@.len() ==> v@[k].1 < 0x1_0000_0000,
            Err(e) => table_entries(t@, o as int) == Err::<Seq<(int, int)>, Seq<char>>(e@),
        },
{
    let names = u16_at_exec(t, o + 12);
    let ids = u16_at_exec(t, o + 14);
    match (names, ids) {
        (Some(names), Some(ids)) => {
            let n = names + ids;
            let len = t.len() as u64;
            if o + 16 + 8 * n > len {
                return Err(eof());
            }
            let ghost es = table_entries(t@, o as int)->Ok_0;
            let mut v: Vec<(u64, u64)> = Vec::new();
            let mut k: u64 = 0;
            while k < n
                invariant
                    k <= n,
                    n == names + ids,
                    o < 0x1_0000_0000_0000,
                    o + 16 + 8 * n <= t@.len(),
                    u16_at(t@, o + 12) == Some(names as int),
                    u16_at(t@, o + 14) == Some(ids as int),
                    es == table_entries(t@, o as int)->Ok_0,
                    es.len() == n,
                    v@.len() == k,
                    forall|j: int| 0 <= j < k ==> v@[j].1 < 0x1_0000_0000,
                    forall|j: int|
                        0 <= j < k ==> (#[trigger] v@[j]).0 as int == es[j].0 && v@[j].1 as int
                            == es[j].1,
                decreases n - k,
            {
                let a = u32_at_exec(t, o + 16 + 8 * k);
                let b = u32_at_exec(t, o + 20 + 8 * k);
                match (a, b) {
                    (Some(a), Some(b)) => {
                        v.push((a, b));
                    },
                    _ => {
                        return Err(eof());
                    },
                }
                k = k + 1;
            }
            assert(v@.map_values(|e: (u64, u64)| (e.0 as int, e.1 as int)) =~= es);
            Ok(v)
        },
        _ => Err(eof()),
    }
}

fn data_entry_exec(t: &[u8], o: u64) -> (r: Result<(u64, u64), String>)
    requires
        o < 0x1_0000_0000_0000,
    ensures
        match r {
            Ok((a, s)) => data_entry(t@, o as int) == Ok::<Option<(int, int)>, Seq<char>>(
                Some((a as int, s as int)),
            ) && a < 0x1_0000_0000 && s < 0x1_0000_0000,
            Err(e) => data_entry(t@, o as int) == Err::<Option<(int, int)>, Seq<char>>(e@),
        },
{
    match (u32_at_exec(t, o), u32_at_exec(t, o + 4)) {
        (Some(a), Some(s)) => Ok((a, s)),
        _ => Err(eof()),
    }
}

fn entry_offset_exec(x: u64) -> (r: u64)
    requires
        x < 0x1_0000_0000,
    ensures
        r as int == entry_offset(x as int),
        r < 0x1_0000_0000,
{
    if x >= 0x8000_0000 {
        x - 0x8000_0000
    } else {
        x
    }
}

pub open spec fn entry_views(v: Seq<(u64, u64)>) -> Seq<(int, int)> {
    v.map_values(|e: (u64, u64)| (e.0 as int, e.1 as int))
}

fn language_loop_exec(t: &[u8], langs: &Vec<(u64, u64)>) -> (r: Result<Option<(u64, u64)>, String>)
    requires
        forall|k: int| 0 <= k < langs@.len() ==> langs@[k].1 < 0x1_0000_0000,
    ensures
        match r {
            Ok(Some((a, s))) => language_loop(t@, entry_views(langs@), 0) == Ok::<
                Option<(int, int)>,
                Seq<char>,
            >(Some((a as int, s as int))) && a < 0x1_0000_0000 && s < 0x1_0000_0000,
            Ok(None) => language_loop(t@, entry_views(langs@), 0) == Ok::<
                Option<(int, int)>,
                Seq<char>,
            >(None),
            Err(e) => language_loop(t@, entry_views(langs@), 0) == Err::<
                Option<(int, int)>,
                Seq<char>,
            >(e@),
        },
{
    let ghost es = entry_views(langs@);
    let mut k: usize = 0;
    while k < langs.len()
        invariant
            k <= langs@.len(),
            es == entry_views(langs@),
            forall|j: int| 0 <= j < langs@.len() ==> langs@[j].1 < 0x1_0000_0000,
            language_loop(t@, es, 0) == language_loop(t@, es, k as int),
        decreases langs@.len() - k,
    {
        let e = langs[k].1;
        if e < 0x8000_0000 {
            return match data_entry_exec(t, e) {
                Ok(d) => Ok(Some(d)),
                Err(m) => Err(m),
            };
        }
        k = k + 1;
    }
    Ok(None)
}

fn name_loop_exec(t: &[u8], names: &Vec<(u64, u64)>) -> (r: Result<Option<(u64, u64)>, String>)
    requires
        forall|k: int| 0 <= k < names@.len() ==> names@[k].1 < 0x1_0000_0000,
    ensures
        match r {
            Ok(Some((a, s))) => name_loop(t@, entry_views(names@), 0) == Ok::<
                Option<(int, int)>,
                Seq<char>,
            >(Some((a as int, s as int))) && a < 0x1_0000_0000 && s < 0x1_0000_0000,
            Ok(None) => name_loop(t@, entry_views(names@), 0) == Ok::<
                Option<(int, int)>,
                Seq<char>,
            >(None),
            Err(e) => name_loop(t@, entry_views(names@), 0) == Err::<
                Option<(int, int)>,
                Seq<char>,
            >(e@),
        },
{
    let ghost es = entry_views(names@);
    let mut j: usize = 0;
    while j < names.len()
        invariant
            j <= names@.len(),
            es == entry_views(names@),
            forall|k: int| 0 <= k < names@.len() ==> names@[k].1 < 0x1_0000_0000,
            name_loop(t@, es, 0) == name_loop(t@, es, j as int),
        decreases names@.len() - j,
    {
        let e = names[j].1;
        if e >= 0x8000_0000 {
            match table_entries_exec(t, entry_offset_exec(e)) {
                Err(m) => {
                    return Err(m);
                },
                Ok(langs) => match language_loop_exec(t, &langs) {
                    Ok(None) => {},
                    r => {
                        return r;
                    },
                },
            }
        }
        j = j + 1;
    }
    Ok(None)
}

fn resource_tables_exec(t: &[u8]) -> (r: Result<Option<(u64, u64)>, String>)
    ensures
        match r {
            Ok(Some((a, s))) => resource_tables(t@) == Ok::<Option<(int, int)>, Seq<char>>(
                Some((a as int, s as int)),
            ) && a < 0x1_0000_0000 && s < 0x1_0000_0000,
            Ok(None) => resource_tables(t@) == Ok::<Option<(int, int)>, Seq<char>>(None),
            Err(e) => resource_tables(t@) == Err::<Option<(int, int)>, Seq<char>>(e@),
        },
{
    let roots = match table_entries_exec(t, 0) {
        Ok(v) => v,
        Err(m) => {
            return Err(m);
        },
    };
    let ghost es = entry_views(roots@);
    let mut i: usize = 0;
    while i < roots.len()
        invariant
            i <= roots@.len(),
            es == entry_views(roots@),
            table_entries(t@, 0) == Ok::<Seq<(int, int)>, Seq<char>>(es),
            forall|k: int| 0 <= k < roots@.len() ==> roots@[k].1 < 0x1_0000_0000,
            root_loop(t@, es, 0) == root_loop(t@, es, i as int),
        decreases roots@.len() - i,
    {
        let (id, e) = roots[i];
        if id == 16 && e >= 0x8000_0000 {
            match table_entries_exec(t, entry_offset_exec(e)) {
                Err(m) => {
                    return Err(m);
                },
                Ok(names) => match name_loop_exec(t, &names) {
                    Ok(None) => {},
                    r => {
                        return r;
                    },
                },
            }
        }
        i = i + 1;
    }
    Ok(None)
}

fn version_data_exec(t: &[u8], section_address: u64) -> (r: Result<Option<Vec<u8>>, String>)
    requires
        section_address < 0x1_0000_0000,
    ensures
        match r {
            Ok(Some(d)) => version_data(t@, section_address as int) == Ok::<
                Option<Seq<u8>>,
                Seq<char>,
            >(Some(d@)),
            Ok(None) => version_data(t@, section_address as int) == Ok::<
                Option<Seq<u8>>,
                Seq<char>,
            >(None),
            Err(e) => version_data(t@, section_address as int) == Err::<
                Option<Seq<u8>>,
                Seq<char>,
            >(e@),
        },
{
    match resource_tables_exec(t) {
        Err(m) => Err(m),
        Ok(None) => Ok(None),
        Ok(Some((rva, size))) => {
            let start = if rva >= section_address {
                rva - section_address
            } else {
                rva + 0x1_0000_0000 - section_address
            };
            assert(start as int == wrap32(rva - section_address));
            let len = t.len() as u64;
            if start + size <= len {
                let d = vstd::slice::slice_to_vec(&t[start as usize..(start + size) as usize]);
                Ok(Some(d))
            } else {
                Err(eof())
            }
        },
    }
}

/// Reads the data of the version resource of a Portable Executable file.
pub fn read_version_resource_data(f: &[u8]) -> (r: Result<Option<Vec<u8>>, String>)
    ensures
        match r {
            Ok(Some(d)) => version_resource(f@) == Ok::<Option<Seq<u8>>, Seq<char>>(Some(d@)),
            Ok(None) => version_resource(f@) == Ok::<Option<Seq<u8>>, Seq<char>>(None),
            Err(e) => version_resource(f@) == Err::<Option<Seq<u8>>, Seq<char>>(e@),
        },
{
    if f.len() < 2 {
        return Err(eof());
    }
    if f[0] != 0x4D || f[1] != 0x5A {
        return Err(message("Unknown file magic"));
    }
    let pe = match u16_at_exec(f, 0x3C) {
        Some(p) => p,
        None => {
            return Err(eof());
        },
    };
    let len = f.len() as u64;
    if pe + 4 > len {
        return Err(eof());
    }
    let p = pe as usize;
    if !(f[p] == 0x50 && f[p + 1] == 0x45 && f[p + 2] == 0 && f[p + 3] == 0) {
        return Err(message("Unexpected PE header magic bytes"));
    }
    let (sections, size) = match coff_header_exec(f, pe + 4) {
        Ok(h) => h,
        Err(m) => {
            return Err(m);
        },
    };
    let (dir, end) = match optional_header_exec(f, pe + 24, size) {
        Ok(h) => h,
        Err(m) => {
            return Err(m);
        },
    };
    let (dir_address, dir_size) = match dir {
        None => {
            return Ok(None);
        },
        Some(d) => d,
    };
    let mut pos: u64 = end;
    let mut i: u64 = 0;
    while i < sections
        invariant
            i <= sections,
            sections < 0x1_0000,
            pos == end + 40 * i,
            end < 0x100_0000_0000,
            len == f@.len(),
            len < 0x1_0000_0000_0000_0000,
            pos < 0x1_0000_0000_0000,
            dir_address < 0x1_0000_0000,
            dir_size < 0x1_0000_0000,
            version_resource(f@) == sections_from(
                f@,
                pos as int,
                sections as int,
                i as int,
                dir_address as int,
                dir_size as int,
            ),
        decreases sections - i,
    {
        match section_data(f, pos, dir_address, dir_size, Ghost(sections as int), Ghost(i as int)) {
            Some(r) => {
                return r;
            },
            None => {},
        }
        pos = pos + 40;
        i = i + 1;
    }
    Ok(None)
}

/// Reads the section table entry at `pos` and, where its section contains
/// the resource table's directory, the version data that the table holds.
fn section_data(
    f: &[u8],
    pos: u64,
    dir_address: u64,
    dir_size: u64,
    Ghost(n): Ghost<int>,
    Ghost(i): Ghost<int>,
) -> (r: Option<Result<Option<Vec<u8>>, String>>)
    requires
        i < n,
        pos < 0x1_0000_0000_0000,
        dir_address < 0x1_0000_0000,
        dir_size < 0x1_0000_0000,
    ensures
        match r {
            None => sections_from(f@, pos as int, n, i, dir_address as int, dir_size as int)
                == sections_from(f@, pos + 40, n, i + 1, dir_address as int, dir_size as int),
            Some(Ok(Some(d))) => sections_from(
                f@,
                pos as int,
                n,
                i,
                dir_address as int,
                dir_size as int,
            ) == Ok::<Option<Seq<u8>>, Seq<char>>(Some(d@)),
            Some(Ok(None)) => sections_from(
                f@,
                pos as int,
                n,
                i,
                dir_address as int,
                dir_size as int,
            ) == Ok::<Option<Seq<u8>>, Seq<char>>(None),
            Some(Err(e)) => sections_from(
                f@,
                pos as int,
                n,
                i,
                dir_address as int,
                dir_size as int,
            ) == Err::<Option<Seq<u8>>, Seq<char>>(e@),
        },
{
    let len = f.len() as u64;
    if pos + 24 > len {
        return Some(Err(eof()));
    }
    let (virtual_size, address, raw_size, raw_offset) = match (
        u32_at_exec(f, pos + 8),
        u32_at_exec(f, pos + 12),
        u32_at_exec(f, pos + 16),
        u32_at_exec(f, pos + 20),
    ) {
        (Some(a), Some(b), Some(c), Some(d)) => (a, b, c, d),
        _ => {
            return Some(Err(eof()));
        },
    };
    let actual = if raw_size <= virtual_size {
        raw_size
    } else {
        virtual_size
    };
    let dir_end = (dir_address + dir_size) % 0x1_0000_0000;
    let section_end = (address + actual) % 0x1_0000_0000;
    if dir_address >= address && dir_end <= section_end {
        let start = (raw_offset + (dir_address - address)) % 0x1_0000_0000;
        if start + dir_size <= len {
            let table = &f[start as usize..(start + dir_size) as usize];
            assert(table@ =~= f@.subrange(start as int, start + dir_size));
            Some(version_data_exec(table, address))
        } else {
            Some(Err(eof()))
        }
    } else {
        None
    }
}

/// The UTF-16 decoding of a sequence of code units: each unit outside the
/// surrogate range stands for itself, a high surrogate followed by a low one
/// stands for the character they encode together, and an unpaired surrogate
/// makes the sequence invalid (nothing).
pub open spec fn utf16_decoded(units: Seq<u16>) -> Option<Seq<char>>
    decreases units.len(),
{
    if units.len() == 0 {
        Some(Seq::empty())
    } else {
        let u = units[0] as u32;
        if u < 0xD800 || u > 0xDFFF {
            match utf16_decoded(units.skip(1)) {
                Some(rest) => Some(seq![u as char] + rest),
                None => None,
            }
        } else if u <= 0xDBFF && units.len() >= 2 && 0xDC00 <= units[1] <= 0xDFFF {
            let c = (0x10000 + (u - 0xD800) * 0x400 + (units[1] - 0xDC00)) as u32;
            match utf16_decoded(units.skip(2)) {
                Some(rest) => Some(seq![c as char] + rest),
                None => None,
            }
        } else {
            None
        }
    }
}

/// Calls `String::from_utf16`, which decodes UTF-16 code units, giving an
/// error where the units are not valid UTF-16 (an unpaired surrogate).
#[verifier::external_body]
fn from_utf16(units: &[u16]) -> (r: Option<String>)
    ensures
        match r {
            Some(s) => utf16_decoded(units@) == Some(s@),
            None => utf16_decoded(units@) is None,
        },
{
    String::from_utf16(units).ok()
}

/// The items of a byte slice as `{:X?}` writes them: uppercase hexadecimal,
/// separated by `, `.
pub open spec fn hex_items(d: Seq<u8>) -> Seq<char>
    decreases d.len(),
{
    if d.len() == 0 {
        Seq::empty()
    } else if d.len() == 1 {
        hex_upper(d[0] as nat)
    } else {
        hex_items(d.drop_last()) + ", "@ + hex_upper(d.last() as nat)
    }
}

/// A byte slice as `{:X?}` writes it.
pub open spec fn hex_dump(d: Seq<u8>) -> Seq<char> {
    "["@ + hex_items(d) + "]"@
}

fn push_hex_dump(s: &mut String, d: &[u8])
    ensures
        final(s)@ == old(s)@ + hex_dump(d@),
{
    push_str(s, "[");
    let mut i: usize = 0;
    while i < d.len()
        invariant
            i <= d@.len(),
            s@ == old(s)@ + "["@ + hex_items(d@.take(i as int)),
        decreases d@.len() - i,
    {
        assert(d@.take(i + 1).drop_last() =~= d@.take(i as int));
        if i > 0 {
            push_str(s, ", ");
        }
        push_hex_upper(s, d[i] as u64);
        i = i + 1;
        assert(s@ =~= old(s)@ + "["@ + hex_items(d@.take(i as int)));
    }
    assert(d@.take(i as int) =~= d@);
    push_str(s, "]");
    assert(s@ =~= old(s)@ + hex_dump(d@));
}

/// A message followed by the bytes it speaks of.
fn with_bytes(text: &str, d: &[u8]) -> (r: String)
    ensures
        r@ == text@ + hex_dump(d@),
{
    let mut s = string_from_str(text);
    push_hex_dump(&mut s, d);
    s
}

/// Whether the data hold, at a position, a key of ASCII characters in
/// UTF-16 with its terminating null.
pub open spec fn has_key_at(d: Seq<u8>, at: int, key: Seq<char>) -> bool {
    &&& 0 <= at
    &&& at + 2 * key.len() + 2 <= d.len()
    &&& forall|k: int|
        0 <= k < key.len() ==> d[at + 2 * k] as u32 == key[k] as u32 && d[at + 2 * k + 1] == 0
    &&& d[at + 2 * key.len()] == 0
    &&& d[at + 2 * key.len() + 1] == 0
}

fn has_key_at_exec(d: &[u8], at: usize, key: &str) -> (r: bool)
    requires
        at < 0x1_0000,
    ensures
        r == has_key_at(d@, at as int, key@),
{
    let k = crate::text::chars_of(key);
    if at > d.len() || d.len() - at < 2 || (d.len() - at - 2) / 2 < k.len() {
        return false;
    }
    let room = d.len() - at - 2;
    let n = k.len();
    assert(2 * n <= room) by (nonlinear_arith)
        requires
            room / 2 >= n,
    ;
    let mut i: usize = 0;
    let mut p: usize = at;
    while i < k.len()
        invariant
            i <= k@.len(),
            k@ == key@,
            p == at + 2 * i,
            at + 2 * k@.len() + 2 <= d@.len(),
            forall|j: int|
                0 <= j < i ==> d@[at + 2 * j] as u32 == k@[j] as u32 && d@[at + 2 * j + 1] == 0,
        decreases k@.len() - i,
    {
        if d[p] as u32 != k[i] as u32 || d[p + 1] != 0 {
            return false;
        }
        i = i + 1;
        p = p + 2;
    }
    d[p] == 0 && d[p + 1] == 0
}

pub open spec fn too_small_message(d: Seq<u8>) -> Seq<char> {
    "The buffer was too small to hold a struct: "@ + hex_dump(d)
}

/// The length and value length at the start of a version structure.
pub open spec fn struct_headers(d: Seq<u8>) -> Result<(int, int), Seq<char>> {
    if d.len() < 4 {
        Err(too_small_message(d))
    } else {
        Ok((u16_at(d, 0).unwrap(), u16_at(d, 2).unwrap()))
    }
}

/// The headers of a `VS_VERSIONINFO` structure, whose length must be that of
/// the data and whose key must be `VS_VERSION_INFO`.
pub open spec fn version_info_headers(d: Seq<u8>) -> Result<(int, int), Seq<char>> {
    match struct_headers(d) {
        Err(e) => Err(e),
        Ok((length, value_length)) => if length != d.len() {
            Err(
                "Unexpected length of VS_VERSIONINFO struct, got "@ + decimal(length as nat)
                    + " but buffer length is "@ + decimal(d.len()),
            )
        } else if !has_key_at(d, 6, "VS_VERSION_INFO"@) {
            Err("The szKey field's value is not valid for a VS_VERSIONINFO struct: "@ + hex_dump(d))
        } else {
            Ok((length, value_length))
        },
    }
}

pub open spec fn subslice_message(d: Seq<u8>, offset: nat, size: nat) -> Seq<char> {
    "Invalid subslice of size "@ + decimal(size) + " at offset "@ + decimal(offset)
        + " of bytes "@ + hex_dump(d)
}

/// The file version in a `VS_FIXEDFILEINFO` structure: major, minor, patch
/// and build numbers.
pub open spec fn fixed_file_info(d: Seq<u8>) -> Result<VersionView, Seq<char>> {
    if d.len() != 0x34 {
        Err(
            "Unexpected length of VS_VERSIONINFO value, got "@ + decimal(d.len())
                + " but expected 52"@,
        )
    } else if !(d[0] == 0xBD && d[1] == 0x04 && d[2] == 0xEF && d[3] == 0xFE) {
        Err("Unexpected first four bytes of VS_VERSIONINFO struct "@ + hex_dump(d))
    } else {
        Ok(
            VersionView {
                release: seq![
                    IdView::Numeric(u16_at(d, 10).unwrap() as u32),
                    IdView::Numeric(u16_at(d, 8).unwrap() as u32),
                    IdView::Numeric(u16_at(d, 14).unwrap() as u32),
                    IdView::Numeric(u16_at(d, 12).unwrap() as u32),
                ],
                pre_release: Seq::empty(),
            },
        )
    }
}

/// The file version that a `VS_VERSIONINFO` structure holds, if it has a
/// value.
pub open spec fn file_version(d: Seq<u8>) -> Result<Option<VersionView>, Seq<char>> {
    match version_info_headers(d) {
        Err(e) => Err(e),
        Ok((_, value_length)) => if value_length == 0 {
            Ok(None)
        } else if 40 + value_length > d.len() {
            Err(subslice_message(d, 40, value_length as nat))
        } else {
            match fixed_file_info(d.subrange(40, 40 + value_length)) {
                Ok(v) => Ok(Some(v)),
                Err(e) => Err(e),
            }
        },
    }
}

fn push_number(s: &mut String, n: u64)
    ensures
        final(s)@ == old(s)@ + decimal(n as nat),
{
    push_decimal(s, n);
}

fn struct_headers_exec(d: &[u8]) -> (r: Result<(u64, u64), String>)
    ensures
        match r {
            Ok((a, b)) => struct_headers(d@) == Ok::<(int, int), Seq<char>>((a as int, b as int)),
            Err(e) => struct_headers(d@) == Err::<(int, int), Seq<char>>(e@),
        },
{
    if d.len() < 4 {
        return Err(with_bytes("The buffer was too small to hold a struct: ", d));
    }
    Ok((u16_at_exec(d, 0).unwrap(), u16_at_exec(d, 2).unwrap()))
}

fn version_info_headers_exec(d: &[u8]) -> (r: Result<(u64, u64), String>)
    ensures
        match r {
            Ok((a, b)) => version_info_headers(d@) == Ok::<(int, int), Seq<char>>(
                (a as int, b as int),
            ) && a < 0x1_0000 && b < 0x1_0000,
            Err(e) => version_info_headers(d@) == Err::<(int, int), Seq<char>>(e@),
        },
{
    let (length, value_length) = match struct_headers_exec(d) {
        Ok(h) => h,
        Err(e) => {
            return Err(e);
        },
    };
    if length != d.len() as u64 {
        let mut s = string_from_str("Unexpected length of VS_VERSIONINFO struct, got ");
        push_number(&mut s, length);
        push_str(&mut s, " but buffer length is ");
        push_number(&mut s, d.len() as u64);
        return Err(s);
    }
    if !has_key_at_exec(d, 6, "VS_VERSION_INFO") {
        return Err(
            with_bytes("The szKey field's value is not valid for a VS_VERSIONINFO struct: ", d),
        );
    }
    Ok((length, value_length))
}

fn subslice_error(d: &[u8], offset: u64, size: u64) -> (r: String)
    ensures
        r@ == subslice_message(d@, offset as nat, size as nat),
{
    let mut s = string_from_str("Invalid subslice of size ");
    push_number(&mut s, size);
    push_str(&mut s, " at offset ");
    push_number(&mut s, offset);
    push_str(&mut s, " of bytes ");
    push_hex_dump(&mut s, d);
    s
}

fn fixed_file_info_exec(d: &[u8]) -> (r: Result<Version, String>)
    ensures
        match r {
            Ok(v) => fixed_file_info(d@) == Ok::<VersionView, Seq<char>>(v@),
            Err(e) => fixed_file_info(d@) == Err::<VersionView, Seq<char>>(e@),
        },
{
    if d.len() != 0x34 {
        let mut s = string_from_str("Unexpected length of VS_VERSIONINFO value, got ");
        push_number(&mut s, d.len() as u64);
        push_str(&mut s, " but expected 52");
        return Err(s);
    }
    if !(d[0] == 0xBD && d[1] == 0x04 && d[2] == 0xEF && d[3] == 0xFE) {
        return Err(with_bytes("Unexpected first four bytes of VS_VERSIONINFO struct ", d));
    }
    let minor = u16_at_exec(d, 8).unwrap() as u32;
    let major = u16_at_exec(d, 10).unwrap() as u32;
    let build = u16_at_exec(d, 12).unwrap() as u32;
    let patch = u16_at_exec(d, 14).unwrap() as u32;
    Ok(Version::from_numbers(major, minor, patch, build))
}

/// Reads the file version from version data, if the data hold one.
pub fn read_file_version(d: &[u8]) -> (r: Result<Option<Version>, String>)
    ensures
        match r {
            Ok(Some(v)) => file_version(d@) == Ok::<Option<VersionView>, Seq<char>>(Some(v@)),
            Ok(None) => file_version(d@) == Ok::<Option<VersionView>, Seq<char>>(None),
            Err(e) => file_version(d@) == Err::<Option<VersionView>, Seq<char>>(e@),
        },
{
    let (_, value_length) = match version_info_headers_exec(d) {
        Ok(h) => h,
        Err(e) => {
            return Err(e);
        },
    };
    if value_length == 0 {
        return Ok(None);
    }
    if 40 + value_length > d.len() as u64 {
        return Err(subslice_error(d, 40, value_length));
    }
    let fixed = &d[40..(40 + value_length) as usize];
    assert(fixed@ =~= d@.subrange(40, 40 + value_length));
    match fixed_file_info_exec(fixed) {
        Ok(v) => Ok(Some(v)),
        Err(e) => Err(e),
    }
}

/// The code units of a little-endian UTF-16 string, without the last one
/// (the terminating null); an odd trailing byte is left out.
pub open spec fn utf16_units(b: Seq<u8>) -> Seq<u16> {
    let all = Seq::new(b.len() / 2, |k: int| (b[2 * k] as int + 256 * (b[2 * k + 1] as int)) as u16);
    if all.len() > 0 {
        all.drop_last()
    } else {
        all
    }
}

/// The position after a structure of the given length, aligned to four
/// bytes.
pub open spec fn aligned(n: int) -> int {
    if n % 4 == 0 {
        n
    } else {
        n + 2
    }
}

pub open spec fn offset_message(b: Seq<u8>, offset: nat) -> Seq<char> {
    "Failed to get subslice at offset "@ + decimal(offset) + " of "@ + hex_dump(b)
}

pub open spec fn size_field_message(b: Seq<u8>) -> Seq<char> {
    "The buffer was too small to hold a struct size field: "@ + hex_dump(b)
}

/// The message where walking the structures would not get any further.
pub open spec fn stalled_message() -> Seq<char> {
    "The version information could not be read to its end"@
}

pub open spec fn lone_surrogate_message() -> Seq<char> {
    "invalid utf-16: lone surrogate found"@
}

/// What reading one structure gives: the product version string, or the
/// offset of the next structure.
pub enum ReadView {
    Version(Seq<char>),
    Next(int),
}

/// Reads a `String` structure: the value where its key is `ProductVersion`.
pub open spec fn next_string(s: Seq<u8>) -> Result<ReadView, Seq<char>> {
    if s.len() < 4 {
        Err("The buffer was too small to hold a String struct: "@ + hex_dump(s))
    } else {
        let length = u16_at(s, 0).unwrap();
        let value_length = u16_at(s, 2).unwrap();
        if has_key_at(s, 6, "ProductVersion"@) {
            if 36 + 2 * value_length > s.len() {
                Err(subslice_message(s, 36, (2 * value_length) as nat))
            } else {
                match utf16_decoded(utf16_units(s.subrange(36, 36 + 2 * value_length))) {
                    Some(t) => Ok(ReadView::Version(t)),
                    None => Err(lone_surrogate_message()),
                }
            }
        } else {
            Ok(ReadView::Next(aligned(length)))
        }
    }
}

/// Reads the `String` structures of a string table in turn.
pub open spec fn strings_loop(s: Seq<u8>) -> Result<Option<Seq<char>>, Seq<char>>
    decreases s.len(),
{
    if s.len() == 0 {
        Ok(None)
    } else {
        match next_string(s) {
            Err(e) => Err(e),
            Ok(ReadView::Version(t)) => Ok(Some(t)),
            Ok(ReadView::Next(n)) => if n > s.len() {
                Err(offset_message(s, n as nat))
            } else if n <= 0 {
                Err(stalled_message())
            } else {
                strings_loop(s.skip(n))
            },
        }
    }
}

/// Reads a `StringTable` structure.
pub open spec fn next_string_table(t: Seq<u8>) -> Result<ReadView, Seq<char>> {
    if t.len() < 2 {
        Err(size_field_message(t))
    } else {
        let size = u16_at(t, 0).unwrap();
        if size < 24 {
            Err("The StringTable struct's header is too small: "@ + decimal(size as nat))
        } else if size > t.len() {
            Err(subslice_message(t, 24, (size - 24) as nat))
        } else {
            match strings_loop(t.subrange(24, size)) {
                Err(e) => Err(e),
                Ok(Some(v)) => Ok(ReadView::Version(v)),
                Ok(None) => Ok(ReadView::Next(aligned(size))),
            }
        }
    }
}

/// Reads the string tables of a `StringFileInfo` structure in turn; each
/// table follows the one before it, at that table's length rounded up to a
/// multiple of four.
pub open spec fn tables_loop(tables: Seq<u8>) -> Result<Option<Seq<char>>, Seq<char>>
    decreases tables.len(),
{
    if tables.len() == 0 {
        Ok(None)
    } else {
        match next_string_table(tables) {
            Err(e) => Err(e),
            Ok(ReadView::Version(v)) => Ok(Some(v)),
            Ok(ReadView::Next(n)) => if n > tables.len() {
                Err(offset_message(tables, n as nat))
            } else {
                tables_loop(tables.skip(n))
            },
        }
    }
}

/// Reads one child structure of a `VS_VERSIONINFO` structure, looking into
/// it where it is a `StringFileInfo` structure.
pub open spec fn next_child(c: Seq<u8>) -> Result<ReadView, Seq<char>> {
    if c.len() < 2 {
        Err(size_field_message(c))
    } else {
        let length = u16_at(c, 0).unwrap();
        if has_key_at(c, 6, "StringFileInfo"@) {
            if length < 36 {
                Err("The StringFileInfo struct's header is too small: "@ + decimal(length as nat))
            } else if length > c.len() {
                Err(subslice_message(c, 36, (length - 36) as nat))
            } else {
                match tables_loop(c.subrange(36, length)) {
                    Err(e) => Err(e),
                    Ok(Some(v)) => Ok(ReadView::Version(v)),
                    Ok(None) => Ok(ReadView::Next(aligned(length))),
                }
            }
        } else {
            Ok(ReadView::Next(aligned(length)))
        }
    }
}

/// Reads the children of a `VS_VERSIONINFO` structure in turn.
pub open spec fn children_loop(c: Seq<u8>) -> Result<Option<Seq<char>>, Seq<char>>
    decreases c.len(),
{
    if c.len() == 0 {
        Ok(None)
    } else {
        match next_child(c) {
            Err(e) => Err(e),
            Ok(ReadView::Version(v)) => Ok(Some(v)),
            Ok(ReadView::Next(n)) => if n > c.len() {
                Err(offset_message(c, n as nat))
            } else if n <= 0 {
                Err(stalled_message())
            } else {
                children_loop(c.skip(n))
            },
        }
    }
}

/// The message for a `VS_VERSIONINFO` structure whose length does not reach
/// the end of its value, where its children would start.
pub open spec fn too_short_message(length: nat, children_start: nat) -> Seq<char> {
    "The VS_VERSIONINFO struct's length "@ + decimal(length)
        + " does not reach the end of its value at offset "@ + decimal(children_start)
}

/// The product version that a `VS_VERSIONINFO` structure holds, if it holds
/// one.
pub open spec fn product_version(d: Seq<u8>) -> Result<Option<VersionView>, Seq<char>> {
    match version_info_headers(d) {
        Err(e) => Err(e),
        Ok((length, value_length)) => if 40 + value_length > length {
            Err(too_short_message(length as nat, (40 + value_length) as nat))
        } else {
            match children_loop(d.subrange(40 + value_length, length)) {
                Err(e) => Err(e),
                Ok(Some(v)) => Ok(Some(version_of(v))),
                Ok(None) => Ok(None),
            }
        },
    }
}

pub enum Read {
    Version(String),
    Next(usize),
}

pub open spec fn read_view(r: Read) -> ReadView {
    match r {
        Read::Version(s) => ReadView::Version(s@),
        Read::Next(n) => ReadView::Next(n as int),
    }
}

fn offset_error(b: &[u8], offset: usize) -> (r: String)
    ensures
        r@ == offset_message(b@, offset as nat),
{
    let mut s = string_from_str("Failed to get subslice at offset ");
    push_number(&mut s, offset as u64);
    push_str(&mut s, " of ");
    push_hex_dump(&mut s, b);
    s
}

fn stalled() -> (r: String)
    ensures
        r@ == stalled_message(),
{
    string_from_str("The version information could not be read to its end")
}

fn aligned_exec(n: usize) -> (r: usize)
    requires
        n < 0x1_0000,
    ensures
        r as int == aligned(n as int),
{
    if n % 4 == 0 {
        n
    } else {
        n + 2
    }
}

/// Decodes a little-endian UTF-16 string without its terminating null.
fn read_utf16_string(b: &[u8]) -> (r: Option<String>)
    ensures
        match r {
            Some(s) => utf16_decoded(utf16_units(b@)) == Some(s@),
            None => utf16_decoded(utf16_units(b@)) is None,
        },
{
    let ghost all = Seq::new(
        b@.len() / 2,
        |k: int| (b@[2 * k] as int + 256 * (b@[2 * k + 1] as int)) as u16,
    );
    let mut units: Vec<u16> = Vec::new();
    let n = b.len() / 2;
    let mut k: usize = 0;
    let mut p: usize = 0;
    while k < n
        invariant
            n == b@.len() / 2,
            k <= n,
            p == 2 * k,
            units@ == all.take(k as int),
            all == Seq::new(
                b@.len() / 2,
                |k: int| (b@[2 * k] as int + 256 * (b@[2 * k + 1] as int)) as u16,
            ),
        decreases n - k,
    {
        assert(p + 1 < b@.len()) by (nonlinear_arith)
            requires
                k < n,
                p == 2 * k,
                n == b@.len() / 2,
        ;
        let u = b[p] as u16 + 256 * (b[p + 1] as u16);
        units.push(u);
        k = k + 1;
        p = p + 2;
        assert(units@ =~= all.take(k as int));
    }
    assert(all.take(n as int) =~= all);
    if units.len() > 0 {
        units.pop();
    }
    from_utf16(units.as_slice())
}

fn next_string_exec(s: &[u8]) -> (r: Result<Read, String>)
    ensures
        match r {
            Ok(x) => next_string(s@) == Ok::<ReadView, Seq<char>>(read_view(x)) && (x matches Read::Next(n) ==> n < 0x1_0004),
            Err(e) => next_string(s@) == Err::<ReadView, Seq<char>>(e@),
        },
{
    if s.len() < 4 {
        return Err(with_bytes("The buffer was too small to hold a String struct: ", s));
    }
    let length = u16_at_exec(s, 0).unwrap() as usize;
    let value_length = u16_at_exec(s, 2).unwrap() as usize;
    if has_key_at_exec(s, 6, "ProductVersion") {
        if 36 + 2 * value_length > s.len() {
            return Err(subslice_error(s, 36, (2 * value_length) as u64));
        }
        let bytes = &s[36..36 + 2 * value_length];
        assert(bytes@ =~= s@.subrange(36, 36 + 2 * value_length));
        match read_utf16_string(bytes) {
            Some(t) => Ok(Read::Version(t)),
            None => Err(string_from_str("invalid utf-16: lone surrogate found")),
        }
    } else {
        Ok(Read::Next(aligned_exec(length)))
    }
}

fn strings_loop_exec(s: &[u8]) -> (r: Result<Option<String>, String>)
    ensures
        match r {
            Ok(Some(v)) => strings_loop(s@) == Ok::<Option<Seq<char>>, Seq<char>>(Some(v@)),
            Ok(None) => strings_loop(s@) == Ok::<Option<Seq<char>>, Seq<char>>(None),
            Err(e) => strings_loop(s@) == Err::<Option<Seq<char>>, Seq<char>>(e@),
        },
{
    let mut rest: &[u8] = s;
    while rest.len() > 0
        invariant
            strings_loop(s@) == strings_loop(rest@),
        decreases rest@.len(),
    {
        match next_string_exec(rest) {
            Err(e) => {
                return Err(e);
            },
            Ok(Read::Version(t)) => {
                return Ok(Some(t));
            },
            Ok(Read::Next(n)) => {
                if n > rest.len() {
                    return Err(offset_error(rest, n));
                }
                if n == 0 {
                    return Err(stalled());
                }
                let next = &rest[n..rest.len()];
                assert(next@ =~= rest@.skip(n as int));
                rest = next;
            },
        }
    }
    Ok(None)
}

fn size_field_error(b: &[u8]) -> (r: String)
    ensures
        r@ == size_field_message(b@),
{
    with_bytes("The buffer was too small to hold a struct size field: ", b)
}

fn next_string_table_exec(t: &[u8]) -> (r: Result<Read, String>)
    ensures
        match r {
            Ok(x) => next_string_table(t@) == Ok::<ReadView, Seq<char>>(read_view(x)),
            Err(e) => next_string_table(t@) == Err::<ReadView, Seq<char>>(e@),
        },
{
    if t.len() < 2 {
        return Err(size_field_error(t));
    }
    let size = u16_at_exec(t, 0).unwrap() as usize;
    if size < 24 {
        let mut m = string_from_str("The StringTable struct's header is too small: ");
        push_number(&mut m, size as u64);
        return Err(m);
    }
    if size > t.len() {
        return Err(subslice_error(t, 24, (size - 24) as u64));
    }
    let strings = &t[24..size];
    assert(strings@ =~= t@.subrange(24, size as int));
    match strings_loop_exec(strings) {
        Err(e) => Err(e),
        Ok(Some(v)) => Ok(Read::Version(v)),
        Ok(None) => Ok(Read::Next(aligned_exec(size))),
    }
}

fn tables_loop_exec(tables: &[u8]) -> (r: Result<Option<String>, String>)
    ensures
        match r {
            Ok(Some(v)) => tables_loop(tables@) == Ok::<Option<Seq<char>>, Seq<char>>(Some(v@)),
            Ok(None) => tables_loop(tables@) == Ok::<Option<Seq<char>>, Seq<char>>(None),
            Err(e) => tables_loop(tables@) == Err::<Option<Seq<char>>, Seq<char>>(e@),
        },
{
    let mut rest: &[u8] = tables;
    while rest.len() > 0
        invariant
            tables_loop(tables@) == tables_loop(rest@),
        decreases rest@.len(),
    {
        match next_string_table_exec(rest) {
            Err(e) => {
                return Err(e);
            },
            Ok(Read::Version(v)) => {
                return Ok(Some(v));
            },
            Ok(Read::Next(n)) => {
                if n > rest.len() {
                    return Err(offset_error(rest, n));
                }
                let next = &rest[n..rest.len()];
                assert(next@ =~= rest@.skip(n as int));
                rest = next;
            },
        }
    }
    Ok(None)
}

fn next_child_exec(c: &[u8]) -> (r: Result<Read, String>)
    ensures
        match r {
            Ok(x) => next_child(c@) == Ok::<ReadView, Seq<char>>(read_view(x)),
            Err(e) => next_child(c@) == Err::<ReadView, Seq<char>>(e@),
        },
{
    if c.len() < 2 {
        return Err(size_field_error(c));
    }
    let length = u16_at_exec(c, 0).unwrap() as usize;
    if has_key_at_exec(c, 6, "StringFileInfo") {
        if length < 36 {
            let mut m = string_from_str("The StringFileInfo struct's header is too small: ");
            push_number(&mut m, length as u64);
            return Err(m);
        }
        if length > c.len() {
            return Err(subslice_error(c, 36, (length - 36) as u64));
        }
        let tables = &c[36..length];
        assert(tables@ =~= c@.subrange(36, length as int));
        match tables_loop_exec(tables) {
            Err(e) => Err(e),
            Ok(Some(v)) => Ok(Read::Version(v)),
            Ok(None) => Ok(Read::Next(aligned_exec(length))),
        }
    } else {
        Ok(Read::Next(aligned_exec(length)))
    }
}

fn children_loop_exec(c: &[u8]) -> (r: Result<Option<String>, String>)
    ensures
        match r {
            Ok(Some(v)) => children_loop(c@) == Ok::<Option<Seq<char>>, Seq<char>>(Some(v@)),
            Ok(None) => children_loop(c@) == Ok::<Option<Seq<char>>, Seq<char>>(None),
            Err(e) => children_loop(c@) == Err::<Option<Seq<char>>, Seq<char>>(e@),
        },
{
    let mut rest: &[u8] = c;
    while rest.len() > 0
        invariant
            children_loop(c@) == children_loop(rest@),
        decreases rest@.len(),
    {
        match next_child_exec(rest) {
            Err(e) => {
                return Err(e);
            },
            Ok(Read::Version(v)) => {
                return Ok(Some(v));
            },
            Ok(Read::Next(n)) => {
                if n > rest.len() {
                    return Err(offset_error(rest, n));
                }
                if n == 0 {
                    return Err(stalled());
                }
                let next = &rest[n..rest.len()];
                assert(next@ =~= rest@.skip(n as int));
                rest = next;
            },
        }
    }
    Ok(None)
}

/// Reads the product version from version data, if the data hold one.
pub fn read_product_version(d: &[u8]) -> (r: Result<Option<Version>, String>)
    ensures
        match r {
            Ok(Some(v)) => product_version(d@) == Ok::<Option<VersionView>, Seq<char>>(Some(v@)),
            Ok(None) => product_version(d@) == Ok::<Option<VersionView>, Seq<char>>(None),
            Err(e) => product_version(d@) == Err::<Option<VersionView>, Seq<char>>(e@),
        },
{
    let (length, value_length) = match version_info_headers_exec(d) {
        Ok(h) => h,
        Err(e) => {
            return Err(e);
        },
    };
    let length = length as usize;
    let start = 40 + value_length as usize;
    if start > length {
        let mut m = string_from_str("The VS_VERSIONINFO struct's length ");
        push_number(&mut m, length as u64);
        push_str(&mut m, " does not reach the end of its value at offset ");
        push_number(&mut m, start as u64);
        return Err(m);
    }
    let children = &d[start..length];
    assert(children@ =~= d@.subrange(start as int, length as int));
    match children_loop_exec(children) {
        Err(e) => Err(e),
        Ok(Some(v)) => Ok(Some(Version::from(v.as_str()))),
        Ok(None) => Ok(None),
    }
}

} // verus!