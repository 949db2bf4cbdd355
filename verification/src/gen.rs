//! The generator driver: one output artifact per top-level struct,
//! tagged union, or enum declaration, accumulated into an ordered
//! mapping from file name to generated text.

use vstd::prelude::*;
use crate::decl::{write_struct, write_struct_text};
use crate::emitter::{emitted_line, Writer};
use crate::name::{fs_name, render_name, split_parts, split_underscore, Name};
use crate::schema::{fields_depth, variants_depth, Schema, StructDef};
use crate::textutil::{dec_seq, u64_to_string};

verus! {

/// The output file name of a top-level declaration.
pub open spec fn file_name_of(base: Seq<Seq<char>>) -> Seq<char> {
    ("Model/"@ + fs_name(base)) + ".fs"@
}

/// The two header lines every generated file starts with.
pub open spec fn file_header(ns: Seq<char>) -> Seq<char> {
    emitted_line(
        emitted_line(Seq::empty(), 0, "#nowarn \"0058\""@),
        0,
        ("namespace "@ + ns) + ".Model"@,
    )
}

/// The member lines of an enum declaration: each variant at its
/// zero-based position, which is its wire value.
pub open spec fn enum_members_text(t: Seq<char>, variants: Seq<Name>, i: int) -> Seq<char>
    decreases variants.len() - i,
{
    if i < 0 || i >= variants.len() {
        t
    } else {
        let line = (("| "@ + fs_name(variants[i].parts_view())) + " = "@) + dec_seq(i as nat);
        enum_members_text(emitted_line(t, 1, line), variants, i + 1)
    }
}

/// The whole generated file of a top-level enum.
pub open spec fn enum_file_text(ns: Seq<char>, base: Name, variants: Seq<Name>) -> Seq<char> {
    let t1 = emitted_line(file_header(ns), 0, ("type "@ + fs_name(base.parts_view())) + " ="@);
    enum_members_text(t1, variants, 0)
}

/// The whole generated file of a top-level struct.
pub open spec fn struct_file_text(ns: Seq<char>, sd: StructDef) -> Seq<char> {
    write_struct_text(file_header(ns), 0, sd, None::<(Seq<Seq<char>>, nat)>)
}

/// The variant payload declarations of a tagged union, each preceded
/// by a blank line and tagged with its discriminant.
pub open spec fn oneof_decls_text(
    t: Seq<char>,
    base: Seq<Seq<char>>,
    variants: Seq<StructDef>,
    i: int,
) -> Seq<char>
    decreases variants.len() - i,
{
    if i < 0 || i >= variants.len() {
        t
    } else {
        let t1 = write_struct_text(t.push('\n'), 0, variants[i], Some((base, i as nat)));
        oneof_decls_text(t1, base, variants, i + 1)
    }
}

/// The constructor lines of the union's sum type.
pub open spec fn oneof_ctor_text(
    t: Seq<char>,
    bname: Seq<char>,
    variants: Seq<StructDef>,
    i: int,
) -> Seq<char>
    decreases variants.len() - i,
{
    if i < 0 || i >= variants.len() {
        t
    } else {
        let vn = fs_name(variants[i].name.parts_view());
        let line = ((("| "@ + vn) + " of "@) + bname) + vn;
        oneof_ctor_text(emitted_line(t, 1, line), bname, variants, i + 1)
    }
}

/// The writer's dispatch arms: each variant delegates to its payload's
/// own writer.
pub open spec fn oneof_write_arms_text(t: Seq<char>, variants: Seq<StructDef>, i: int) -> Seq<
    char,
>
    decreases variants.len() - i,
{
    if i < 0 || i >= variants.len() {
        t
    } else {
        let line = ("| "@ + fs_name(variants[i].name.parts_view()))
            + " value -> value.writeTo writer"@;
        oneof_write_arms_text(emitted_line(t, 3, line), variants, i + 1)
    }
}

/// The reader's dispatch arms: each expected discriminant delegates to
/// the corresponding payload's reader.
pub open spec fn oneof_read_arms_text(
    t: Seq<char>,
    bname: Seq<char>,
    variants: Seq<StructDef>,
    i: int,
) -> Seq<char>
    decreases variants.len() - i,
{
    if i < 0 || i >= variants.len() {
        t
    } else {
        let vn = fs_name(variants[i].name.parts_view());
        let line = (((((("| "@ + dec_seq(i as nat)) + " -> "@) + vn) + " ("@) + bname) + vn)
            + ".readFrom reader)"@;
        oneof_read_arms_text(emitted_line(t, 3, line), bname, variants, i + 1)
    }
}

/// The whole generated file of a tagged union: the variant payload
/// declarations, the sum type, the dispatching writer, and the reader
/// that accepts exactly the declared discriminants and fails loudly on
/// any other value.
pub open spec fn oneof_file_text(ns: Seq<char>, base: Name, variants: Seq<StructDef>) -> Seq<
    char,
> {
    let bname = fs_name(base.parts_view());
    let t1 = oneof_decls_text(file_header(ns), base.parts_view(), variants, 0);
    let t2 = emitted_line(t1, 0, ("type "@ + bname) + " = "@);
    let t3 = oneof_ctor_text(t2, bname, variants, 0);
    let t4 = emitted_line(t3, 1, "with"@);
    let t5 = emitted_line(t4, 1, "member this.writeTo(writer: System.IO.BinaryWriter) ="@);
    let t6 = emitted_line(t5, 2, "match this with"@);
    let t7 = oneof_write_arms_text(t6, variants, 0);
    let t8 = emitted_line(t7, 1, "static member readFrom(reader: System.IO.BinaryReader) ="@);
    let t9 = emitted_line(t8, 2, "match reader.ReadInt32() with"@);
    let t10 = oneof_read_arms_text(t9, bname, variants, 0);
    emitted_line(t10, 3, "| x -> failwith (sprintf \"Unexpected CustomDataType %d\" x)"@)
}

/// The files a single call of `add_only` appends: one for a top-level
/// struct, union, or enum, none for a primitive or container node.
pub open spec fn added_files(s: Schema, ns: Seq<char>) -> Seq<(Seq<char>, Seq<char>)> {
    match s {
        Schema::Enum { base_name, variants } => seq![
            (file_name_of(base_name.parts_view()), enum_file_text(ns, base_name, variants@)),
        ],
        Schema::Struct(sd) => seq![
            (file_name_of(sd.name.parts_view()), struct_file_text(ns, sd)),
        ],
        Schema::OneOf { base_name, variants } => seq![
            (file_name_of(base_name.parts_view()), oneof_file_text(ns, base_name, variants@)),
        ],
        _ => Seq::empty(),
    }
}

/// Whether a declaration's nesting stays within the machine bound on
/// indentation levels.
pub open spec fn schema_fits(s: Schema) -> bool {
    match s {
        Schema::Struct(sd) => 2 + fields_depth(sd.fields@) <= usize::MAX,
        Schema::OneOf { variants, .. } => 2 + variants_depth(variants@) <= usize::MAX,
        _ => true,
    }
}

/// Every variant's field depth is bounded by the maximum over the
/// variants.
proof fn lemma_variants_depth_bound(variants: Seq<StructDef>, i: int)
    requires
        0 <= i < variants.len(),
    ensures
        fields_depth(variants[i].fields@) <= variants_depth(variants),
    decreases variants.len(),
{
    if i == 0 {
    } else {
        lemma_variants_depth_bound(variants.drop_first(), i - 1);
    }
}

/// The generator state: the rendered namespace identifier and the
/// ordered mapping from output file name to generated text.
pub struct Generator {
    main_namespace: String,
    files: Vec<(String, String)>,
}

impl Generator {
    /// The rendered namespace identifier.
    pub closed spec fn namespace_view(&self) -> Seq<char> {
        self.main_namespace@
    }

    /// The accumulated (file name, content) pairs, in insertion order.
    pub closed spec fn files_view(&self) -> Seq<(Seq<char>, Seq<char>)> {
        self.files.deep_view()
    }

    pub fn new(name: &str, version: &str) -> (g: Generator)
        ensures
            g.namespace_view() == fs_name(split_parts(name@)),
            g.files_view() == Seq::<(Seq<char>, Seq<char>)>::empty(),
    {
        let parts = Name::new(split_underscore(name));
        let g = Generator { main_namespace: render_name(&parts), files: Vec::new() };
        proof {
            assert(g.files.deep_view() =~= Seq::<(Seq<char>, Seq<char>)>::empty());
        }
        g
    }

    /// Hand back the accumulated output mapping.
    pub fn result(self) -> (r: Vec<(String, String)>)
        ensures
            r.deep_view() == self.files_view(),
    {
        self.files
    }

    fn push_file(&mut self, file_name: String, content: String)
        ensures
            final(self).namespace_view() == old(self).namespace_view(),
            final(self).files_view() == old(self).files_view().push(
                (file_name@, content@),
            ),
    {
        let ghost fname = file_name@;
        let ghost ctext = content@;
        self.files.push((file_name, content));
        proof {
            assert(self.files.deep_view() =~= old(self).files.deep_view().push((fname, ctext)));
        }
    }

    fn header_writer(&self) -> (w: Writer)
        ensures
            w.text() == file_header(self.namespace_view()),
            w.indent() == 0,
    {
        let mut w = Writer::new();
        w.write_line("#nowarn \"0058\"");
        let line = String::from_str("namespace ").concat(self.main_namespace.as_str()).concat(
            ".Model",
        );
        w.write_line(line.as_str());
        w
    }

    /// Visit one top-level declaration: render its file and append it
    /// to the output mapping; a primitive or container node adds
    /// nothing.
    pub fn add_only(&mut self, schema: &Schema)
        requires
            schema_fits(*schema),
        ensures
            final(self).namespace_view() == old(self).namespace_view(),
            final(self).files_view() == old(self).files_view() + added_files(
                *schema,
                old(self).namespace_view(),
            ),
    {
        match schema {
            Schema::Enum { base_name, variants } => {
                let file_name = String::from_str("Model/").concat(
                    render_name(base_name).as_str(),
                ).concat(".fs");
                let mut w = self.header_writer();
                let line = String::from_str("type ").concat(render_name(base_name).as_str())
                    .concat(" =");
                w.write_line(line.as_str());
                w.inc_ident();
                let ghost t1 = w.text();
                let mut i: usize = 0;
                while i < variants.len()
                    invariant
                        i <= variants.len(),
                        w.indent() == 1,
                        enum_members_text(t1, variants@, 0) == enum_members_text(
                            w.text(),
                            variants@,
                            i as int,
                        ),
                    decreases variants.len() - i,
                {
                    let digits = u64_to_string(i as u64);
                    let line = String::from_str("| ").concat(
                        render_name(&variants[i]).as_str(),
                    ).concat(" = ").concat(digits.as_str());
                    w.write_line(line.as_str());
                    i = i + 1;
                }
                w.dec_ident();
                self.push_file(file_name, w.get());
                proof {
                    assert(old(self).files_view().push(
                        added_files(*schema, old(self).namespace_view())[0],
                    ) =~= old(self).files_view() + added_files(
                        *schema,
                        old(self).namespace_view(),
                    ));
                }
            },
            Schema::Struct(sd) => {
                let file_name = String::from_str("Model/").concat(render_name(&sd.name).as_str())
                    .concat(".fs");
                let mut w = self.header_writer();
                write_struct(&mut w, sd, None);
                self.push_file(file_name, w.get());
                proof {
                    assert(old(self).files_view().push(
                        added_files(*schema, old(self).namespace_view())[0],
                    ) =~= old(self).files_view() + added_files(
                        *schema,
                        old(self).namespace_view(),
                    ));
                }
            },
            Schema::OneOf { base_name, variants } => {
                let file_name = String::from_str("Model/").concat(
                    render_name(base_name).as_str(),
                ).concat(".fs");
                let base_rendered = render_name(base_name);
                let mut w = self.header_writer();

                let ghost t0 = w.text();
                let mut i: usize = 0;
                while i < variants.len()
                    invariant
                        i <= variants.len(),
                        w.indent() == 0,
                        2 + variants_depth(variants@) <= usize::MAX,
                        oneof_decls_text(t0, base_name.parts_view(), variants@, 0)
                            == oneof_decls_text(
                            w.text(),
                            base_name.parts_view(),
                            variants@,
                            i as int,
                        ),
                    decreases variants.len() - i,
                {
                    proof {
                        lemma_variants_depth_bound(variants@, i as int);
                    }
                    w.newline();
                    write_struct(&mut w, &variants[i], Some((base_name, i)));
                    i = i + 1;
                }

                let line = String::from_str("type ").concat(base_rendered.as_str()).concat(" = ");
                w.write_line(line.as_str());
                w.inc_ident();

                let ghost t2 = w.text();
                let mut i: usize = 0;
                while i < variants.len()
                    invariant
                        i <= variants.len(),
                        w.indent() == 1,
                        base_rendered@ == fs_name(base_name.parts_view()),
                        oneof_ctor_text(t2, base_rendered@, variants@, 0) == oneof_ctor_text(
                            w.text(),
                            base_rendered@,
                            variants@,
                            i as int,
                        ),
                    decreases variants.len() - i,
                {
                    let vn = render_name(&variants[i].name);
                    let line = String::from_str("| ").concat(vn.as_str()).concat(" of ").concat(
                        base_rendered.as_str(),
                    ).concat(vn.as_str());
                    w.write_line(line.as_str());
                    i = i + 1;
                }
                w.write_line("with");

                w.write_line("member this.writeTo(writer: System.IO.BinaryWriter) =");
                w.inc_ident();
                w.write_line("match this with");
                w.inc_ident();
                let ghost t6 = w.text();
                let mut i: usize = 0;
                while i < variants.len()
                    invariant
                        i <= variants.len(),
                        w.indent() == 3,
                        oneof_write_arms_text(t6, variants@, 0) == oneof_write_arms_text(
                            w.text(),
                            variants@,
                            i as int,
                        ),
                    decreases variants.len() - i,
                {
                    let line = String::from_str("| ").concat(
                        render_name(&variants[i].name).as_str(),
                    ).concat(" value -> value.writeTo writer");
                    w.write_line(line.as_str());
                    i = i + 1;
                }
                w.dec_ident();
                w.dec_ident();

                w.write_line("static member readFrom(reader: System.IO.BinaryReader) =");
                w.inc_ident();
                w.write_line("match reader.ReadInt32() with");
                w.inc_ident();
                let ghost t9 = w.text();
                let mut i: usize = 0;
                while i < variants.len()
                    invariant
                        i <= variants.len(),
                        w.indent() == 3,
                        base_rendered@ == fs_name(base_name.parts_view()),
                        oneof_read_arms_text(t9, base_rendered@, variants@, 0)
                            == oneof_read_arms_text(
                            w.text(),
                            base_rendered@,
                            variants@,
                            i as int,
                        ),
                    decreases variants.len() - i,
                {
                    let vn = render_name(&variants[i].name);
                    let digits = u64_to_string(i as u64);
                    let line = String::from_str("| ").concat(digits.as_str()).concat(" -> ")
                        .concat(vn.as_str()).concat(" (").concat(base_rendered.as_str()).concat(
                        vn.as_str(),
                    ).concat(".readFrom reader)");
                    w.write_line(line.as_str());
                    i = i + 1;
                }
                w.write_line("| x -> failwith (sprintf \"Unexpected CustomDataType %d\" x)");
                w.dec_ident();
                w.dec_ident();

                w.dec_ident();
                self.push_file(file_name, w.get());
                proof {
                    assert(old(self).files_view().push(
                        added_files(*schema, old(self).namespace_view())[0],
                    ) =~= old(self).files_view() + added_files(
                        *schema,
                        old(self).namespace_view(),
                    ));
                }
            },
            _ => {
                proof {
                    assert(old(self).files_view() + added_files(
                        *schema,
                        old(self).namespace_view(),
                    ) =~= old(self).files_view());
                }
            },
        }
    }
}

} // verus!
