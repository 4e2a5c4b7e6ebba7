use vstd::prelude::*;
use crate::error::PlatError;

verus! {

/// The sections of a module while it is put together: one entry per function
/// in the type, function and code sections, and the counts of the entries.
pub struct Program {
    pub sec_type: Vec<u8>,
    pub n_types: u8,
    pub sec_func: Vec<u8>,
    pub n_funcs: u8,
    pub sec_expo: Vec<u8>,
    pub n_expos: u8,
    pub sec_code: Vec<u8>,
}

/// A program as contracts see it.
pub ghost struct ProgramView {
    pub sec_type: Seq<u8>,
    pub n_types: u8,
    pub sec_func: Seq<u8>,
    pub n_funcs: u8,
    pub sec_expo: Seq<u8>,
    pub n_expos: u8,
    pub sec_code: Seq<u8>,
}

impl View for Program {
    type V = ProgramView;

    open spec fn view(&self) -> ProgramView {
        ProgramView {
            sec_type: self.sec_type@,
            n_types: self.n_types,
            sec_func: self.sec_func@,
            n_funcs: self.n_funcs,
            sec_expo: self.sec_expo@,
            n_expos: self.n_expos,
            sec_code: self.sec_code@,
        }
    }
}

/// The magic bytes and the version that every module starts with.
pub open spec fn header() -> Seq<u8> {
    seq![0x00u8, 0x61u8, 0x73u8, 0x6Du8, 0x01u8, 0x00u8, 0x00u8, 0x00u8]
}

/// The one export entry: the name `main`, of length 4, then the kind
/// "function" and the function index 0.
pub open spec fn main_export() -> Seq<u8> {
    seq![0x04u8, 0x6Du8, 0x61u8, 0x69u8, 0x6Eu8, 0x00u8, 0x00u8]
}

/// A section: its tag, its length in one byte (the entries and the byte of
/// their count), the count of its entries in one byte, and the entries.
pub open spec fn framed(tag: u8, count: u8, content: Seq<u8>) -> Seq<u8> {
    seq![tag, (content.len() + 1) as u8, count] + content
}

/// The length of the type entry that `bytes` starts with: the tag of a
/// function type, the number of arguments, a byte for each, and either the
/// mark of no result or the mark of one result and its type.
pub open spec fn type_entry_len(bytes: Seq<u8>) -> Option<int> {
    if bytes.len() < 3 || bytes[0] != 0x60 {
        None
    } else {
        let k = 2 + bytes[1] as int;
        if k >= bytes.len() {
            None
        } else if bytes[k] == 0 {
            Some(k + 1)
        } else if bytes[k] == 1 && k + 1 < bytes.len() {
            Some(k + 2)
        } else {
            None
        }
    }
}

/// The number of type entries that `bytes` consists of, if it consists of
/// whole entries.
pub open spec fn type_entries(bytes: Seq<u8>) -> Option<nat>
    decreases bytes.len(),
{
    if bytes.len() == 0 {
        Some(0)
    } else {
        match type_entry_len(bytes) {
            Some(n) => match type_entries(bytes.skip(n)) {
                Some(c) => Some(c + 1),
                None => None,
            },
            None => None,
        }
    }
}

/// The number of function bodies that `bytes` consists of, if it consists of
/// whole bodies: each is one byte with its size and then as many bytes.
pub open spec fn code_bodies(bytes: Seq<u8>) -> Option<nat>
    decreases bytes.len(),
{
    if bytes.len() == 0 {
        Some(0)
    } else if 1 + bytes[0] as int > bytes.len() {
        None
    } else {
        match code_bodies(bytes.skip(1 + bytes[0] as int)) {
            Some(c) => Some(c + 1),
            None => None,
        }
    }
}

impl ProgramView {
    /// Whether every section is short enough for its length to be written in
    /// one byte.
    pub open spec fn fits(self) -> bool {
        &&& self.sec_type.len() < 255
        &&& self.sec_func.len() < 255
        &&& self.sec_expo.len() < 255
        &&& self.sec_code.len() < 255
    }

    /// The module: the header, then the type, function, export and code
    /// sections in this order.
    pub open spec fn image(self) -> Seq<u8> {
        header() + framed(0x01, self.n_types, self.sec_type) + framed(
            0x03,
            self.n_funcs,
            self.sec_func,
        ) + framed(0x07, self.n_expos, self.sec_expo) + framed(
            0x0A,
            self.n_funcs,
            self.sec_code,
        )
    }

    /// Whether the counts are those of the entries: as many type entries as
    /// function entries as function bodies, and no export or the one of
    /// `main`.
    pub open spec fn wf(self) -> bool {
        &&& type_entries(self.sec_type) == Some(self.n_types as nat)
        &&& self.sec_func.len() == self.n_funcs
        &&& code_bodies(self.sec_code) == Some(self.n_funcs as nat)
        &&& self.n_types == self.n_funcs
        &&& (self.n_expos == 0 && self.sec_expo.len() == 0) || (self.n_expos == 1
            && self.sec_expo == main_export())
    }
}

/// A section as it is read back from a module.
pub ghost struct SectionView {
    pub tag: u8,
    pub count: u8,
    pub content: Seq<u8>,
    pub next: int,
}

/// The section that starts at `pos` in `image`, read by its own length byte.
pub open spec fn section_at(image: Seq<u8>, pos: int) -> Option<SectionView> {
    if 0 <= pos && pos + 3 <= image.len() && image[pos + 1] >= 1 && pos + 2 + image[pos + 1]
        <= image.len() {
        Some(
            SectionView {
                tag: image[pos],
                count: image[pos + 2],
                content: image.subrange(pos + 3, pos + 2 + image[pos + 1]),
                next: pos + 2 + image[pos + 1],
            },
        )
    } else {
        None
    }
}

/// The four sections of a module as they are read back from it.
pub ghost struct ModuleView {
    pub types: SectionView,
    pub funcs: SectionView,
    pub exports: SectionView,
    pub code: SectionView,
}

/// Reads a module back: the header, then four sections with the tags of the
/// type, function, export and code sections, and nothing behind them.
pub open spec fn decode_module(image: Seq<u8>) -> Option<ModuleView> {
    if image.len() >= 8 && image.subrange(0, 8) == header() {
        match section_at(image, 8) {
            Some(types) => match section_at(image, types.next) {
                Some(funcs) => match section_at(image, funcs.next) {
                    Some(exports) => match section_at(image, exports.next) {
                        Some(code) => if types.tag == 0x01 && funcs.tag == 0x03 && exports.tag
                            == 0x07 && code.tag == 0x0A && code.next == image.len() {
                            Some(ModuleView { types, funcs, exports, code })
                        } else {
                            None
                        },
                        None => None,
                    },
                    None => None,
                },
                None => None,
            },
            None => None,
        }
    } else {
        None
    }
}

/// Whether `image` reads back as the sections and the counts of `p`.
pub open spec fn reads_back_as(image: Seq<u8>, p: ProgramView) -> bool {
    match decode_module(image) {
        Some(m) => {
            &&& m.types.count == p.n_types && m.types.content == p.sec_type
            &&& m.funcs.count == p.n_funcs && m.funcs.content == p.sec_func
            &&& m.exports.count == p.n_expos && m.exports.content == p.sec_expo
            &&& m.code.count == p.n_funcs && m.code.content == p.sec_code
        },
        None => false,
    }
}

/// Whether `image` reads back as a module whose three counts of functions
/// are one number, which is also the number of type entries, of function
/// entries and of function bodies that its sections hold.
pub open spec fn counts_agree(image: Seq<u8>) -> bool {
    match decode_module(image) {
        Some(m) => {
            &&& type_entries(m.types.content) == Some(m.types.count as nat)
            &&& m.funcs.content.len() == m.funcs.count
            &&& code_bodies(m.code.content) == Some(m.code.count as nat)
            &&& m.types.count == m.funcs.count
            &&& m.funcs.count == m.code.count
        },
        None => false,
    }
}

/// Whether `image` reads back as a module that exports exactly `main`, as
/// the function with index 0.
pub open spec fn exports_main(image: Seq<u8>) -> bool {
    match decode_module(image) {
        Some(m) => m.exports.count == 1 && m.exports.content == main_export(),
        None => false,
    }
}

/// A section that fits reads back as it was written.
pub proof fn lemma_section_reads_back(
    before: Seq<u8>,
    tag: u8,
    count: u8,
    content: Seq<u8>,
    behind: Seq<u8>,
)
    requires
        content.len() < 255,
    ensures
        section_at(before + framed(tag, count, content) + behind, before.len() as int) == Some(
            SectionView {
                tag,
                count,
                content,
                next: (before.len() + 3 + content.len()) as int,
            },
        ),
{
    let image = before + framed(tag, count, content) + behind;
    let pos = before.len() as int;
    assert(image[pos] == tag);
    assert(image[pos + 1] == (content.len() + 1) as u8);
    assert(image[pos + 2] == count);
    assert(image.subrange(pos + 3, pos + 3 + content.len()) =~= content);
}

/// The module of a program that fits reads back as that program's sections
/// and counts.
pub proof fn lemma_image_reads_back(p: ProgramView)
    requires
        p.fits(),
    ensures
        p.image().subrange(0, 8) == header(),
        reads_back_as(p.image(), p),
{
    let t = framed(0x01, p.n_types, p.sec_type);
    let f = framed(0x03, p.n_funcs, p.sec_func);
    let x = framed(0x07, p.n_expos, p.sec_expo);
    let c = framed(0x0A, p.n_funcs, p.sec_code);
    let image = p.image();
    let none = Seq::<u8>::empty();
    assert(image.subrange(0, 8) =~= header());
    assert(image =~= header() + t + (f + x + c));
    lemma_section_reads_back(header(), 0x01, p.n_types, p.sec_type, f + x + c);
    assert(image =~= (header() + t) + f + (x + c));
    lemma_section_reads_back(header() + t, 0x03, p.n_funcs, p.sec_func, x + c);
    assert(image =~= (header() + t + f) + x + c);
    lemma_section_reads_back(header() + t + f, 0x07, p.n_expos, p.sec_expo, c);
    assert(image =~= (header() + t + f + x) + c + none);
    lemma_section_reads_back(header() + t + f + x, 0x0A, p.n_funcs, p.sec_code, none);
}

/// Every module of a well-formed program that fits starts with the header,
/// and its count bytes read back as the numbers of entries in its sections,
/// which are equal.
pub proof fn lemma_module_counts(p: ProgramView)
    requires
        p.wf(),
        p.fits(),
    ensures
        p.image().subrange(0, 8) == header(),
        counts_agree(p.image()),
        p.n_expos == 1 ==> exports_main(p.image()),
{
    lemma_image_reads_back(p);
}

/// One more type entry behind whole entries makes one entry more.
pub proof fn lemma_type_entries_push(bytes: Seq<u8>, entry: Seq<u8>)
    requires
        type_entries(bytes) is Some,
        type_entry_len(entry) == Some(entry.len() as int),
    ensures
        type_entries(bytes + entry) == Some(type_entries(bytes)->0 + 1),
    decreases bytes.len(),
{
    if bytes.len() == 0 {
        assert(bytes + entry =~= entry);
        assert(entry.skip(entry.len() as int) =~= Seq::<u8>::empty());
        assert(type_entries(Seq::<u8>::empty()) == Some(0nat));
        assert(type_entries(entry) == Some(1nat));
    } else {
        let n = type_entry_len(bytes)->0;
        let all = bytes + entry;
        assert(type_entries(bytes.skip(n)) is Some);
        assert(all[0] == bytes[0] && all[1] == bytes[1]);
        assert(all[2 + bytes[1] as int] == bytes[2 + bytes[1] as int]);
        assert(type_entry_len(all) == Some(n));
        assert(all.skip(n) =~= bytes.skip(n) + entry);
        lemma_type_entries_push(bytes.skip(n), entry);
        assert(type_entries(all.skip(n)) == Some(type_entries(bytes.skip(n))->0 + 1));
    }
}

/// One more function body behind whole bodies makes one body more.
pub proof fn lemma_code_bodies_push(bytes: Seq<u8>, body: Seq<u8>)
    requires
        code_bodies(bytes) is Some,
        body.len() > 0,
        body[0] as int + 1 == body.len(),
    ensures
        code_bodies(bytes + body) == Some(code_bodies(bytes)->0 + 1),
    decreases bytes.len(),
{
    if bytes.len() == 0 {
        assert(bytes + body =~= body);
        assert(body.skip(body.len() as int) =~= Seq::<u8>::empty());
        assert(code_bodies(Seq::<u8>::empty()) == Some(0nat));
        assert(code_bodies(body) == Some(1nat));
    } else {
        let n = 1 + bytes[0] as int;
        let all = bytes + body;
        assert(code_bodies(bytes.skip(n)) is Some);
        assert(all[0] == bytes[0]);
        assert(all.skip(n) =~= bytes.skip(n) + body);
        lemma_code_bodies_push(bytes.skip(n), body);
        assert(code_bodies(all.skip(n)) == Some(code_bodies(bytes.skip(n))->0 + 1));
    }
}

/// Appends the bytes of `src` to `out`.
pub fn extend(out: &mut Vec<u8>, src: &Vec<u8>)
    ensures
        final(out)@ == old(out)@ + src@,
{
    let mut i: usize = 0;
    assert(out@ =~= old(out)@ + src@.take(0));
    while i < src.len()
        invariant
            i <= src.len(),
            out@ == old(out)@ + src@.take(i as int),
        decreases src.len() - i,
    {
        assert(src@.take(i + 1) =~= src@.take(i as int).push(src@[i as int]));
        assert((old(out)@ + src@.take(i as int)).push(src@[i as int]) =~= old(out)@ + src@.take(
            i + 1,
        ));
        out.push(src[i]);
        i += 1;
    }
    assert(src@.take(i as int) =~= src@);
}

/// Writes one section behind what `out` holds.
fn frame(out: &mut Vec<u8>, tag: u8, count: u8, content: &Vec<u8>)
    requires
        content@.len() < 255,
    ensures
        final(out)@ == old(out)@ + framed(tag, count, content@),
{
    out.push(tag);
    out.push((content.len() + 1) as u8);
    out.push(count);
    extend(out, content);
    assert(out@ =~= old(out)@ + framed(tag, count, content@));
}

impl Program {
    /// The program without any entry.
    pub open spec fn new_view() -> ProgramView {
        ProgramView {
            sec_type: Seq::empty(),
            n_types: 0,
            sec_func: Seq::empty(),
            n_funcs: 0,
            sec_expo: Seq::empty(),
            n_expos: 0,
            sec_code: Seq::empty(),
        }
    }

    /// A program without any entry.
    pub fn new() -> (p: Program)
        ensures
            p@ == Program::new_view(),
            p@.wf(),
    {
        Program {
            sec_type: Vec::new(),
            n_types: 0,
            sec_func: Vec::new(),
            n_funcs: 0,
            sec_expo: Vec::new(),
            n_expos: 0,
            sec_code: Vec::new(),
        }
    }

    /// Puts the module together: the header and the four sections, each with
    /// its tag, its length and the count of its entries in front. A section
    /// too long for its length to be written in one byte is an error, and
    /// the only one.
    pub fn unite(&self) -> (r: Result<Vec<u8>, PlatError>)
        ensures
            match r {
                Ok(image) => self@.fits() && image@ == self@.image() && reads_back_as(
                    image@,
                    self@,
                ),
                Err(e) => !self@.fits() && e == PlatError::CapacityExceeded,
            },
            self@.wf() ==> (r matches Ok(image) ==> counts_agree(image@)),
    {
        if self.sec_type.len() >= 255 || self.sec_func.len() >= 255 || self.sec_expo.len() >= 255
            || self.sec_code.len() >= 255 {
            return Err(PlatError::CapacityExceeded);
        }
        let mut image: Vec<u8> = Vec::new();
        image.push(0x00);
        image.push(0x61);
        image.push(0x73);
        image.push(0x6D);
        image.push(0x01);
        image.push(0x00);
        image.push(0x00);
        image.push(0x00);
        assert(image@ =~= header());
        frame(&mut image, 0x01, self.n_types, &self.sec_type);
        frame(&mut image, 0x03, self.n_funcs, &self.sec_func);
        frame(&mut image, 0x07, self.n_expos, &self.sec_expo);
        frame(&mut image, 0x0A, self.n_funcs, &self.sec_code);
        proof {
            lemma_image_reads_back(self@);
            if self@.wf() {
                lemma_module_counts(self@);
            }
        }
        Ok(image)
    }
}

} // verus!
