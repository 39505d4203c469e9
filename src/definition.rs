use vstd::prelude::*;

verus! {

/// The kinds of header definition lines that declare a dictionary entry.
#[derive(Debug, Clone, Copy, PartialEq, Eq, Structural)]
pub enum DefinitionKind {
    Contig,
    Info,
    Format,
}

/// The opening of a definition line of kind `k`, up to its ID value:
/// `##contig=<ID=`, `##INFO=<ID=` or `##FORMAT=<ID=`.
pub open spec fn kind_prefix(k: DefinitionKind) -> Seq<u8> {
    match k {
        DefinitionKind::Contig => seq![35u8, 35, 99, 111, 110, 116, 105, 103, 61, 60, 73, 68, 61],
        DefinitionKind::Info => seq![35u8, 35, 73, 78, 70, 79, 61, 60, 73, 68, 61],
        DefinitionKind::Format => seq![35u8, 35, 70, 79, 82, 77, 65, 84, 61, 60, 73, 68, 61],
    }
}

/// A byte that may stand in an ID value: anything but `,` and `>`.
pub open spec fn is_id_byte(b: u8) -> bool {
    b != 44u8 && b != 62u8
}

/// `line` is a definition of kind `k` declaring `id`: the kind's opening,
/// a non-empty ID value, a `,` or `>` after it, and a closing `>`.
pub open spec fn defines(line: Seq<u8>, k: DefinitionKind, id: Seq<u8>) -> bool {
    let p = kind_prefix(k);
    &&& line.len() > p.len() + id.len()
    &&& line.subrange(0, p.len() as int) == p
    &&& line.subrange(p.len() as int, (p.len() + id.len()) as int) == id
    &&& id.len() > 0
    &&& forall|i: int| 0 <= i < id.len() ==> is_id_byte(#[trigger] id[i])
    &&& !is_id_byte(line[(p.len() + id.len()) as int])
    &&& line.last() == 62u8
}

fn prefix_of(k: DefinitionKind) -> (r: Vec<u8>)
    ensures
        r@ == kind_prefix(k),
{
    let r = match k {
        DefinitionKind::Contig => vec![35u8, 35, 99, 111, 110, 116, 105, 103, 61, 60, 73, 68, 61],
        DefinitionKind::Info => vec![35u8, 35, 73, 78, 70, 79, 61, 60, 73, 68, 61],
        DefinitionKind::Format => vec![35u8, 35, 70, 79, 82, 77, 65, 84, 61, 60, 73, 68, 61],
    };
    assert(r@ =~= kind_prefix(k));
    r
}

fn starts_with(line: &[u8], prefix: &Vec<u8>) -> (r: bool)
    ensures
        r == (line@.len() >= prefix@.len() && line@.subrange(0, prefix@.len() as int) == prefix@),
{
    if line.len() < prefix.len() {
        return false;
    }
    let mut i: usize = 0;
    while i < prefix.len()
        invariant
            i <= prefix@.len() <= line@.len(),
            forall|j: int| 0 <= j < i ==> line@[j] == prefix@[j],
        decreases prefix.len() - i,
    {
        if line[i] != prefix[i] {
            assert(line@.subrange(0, prefix@.len() as int)[i as int] != prefix@[i as int]);
            return false;
        }
        i += 1;
    }
    assert(line@.subrange(0, prefix@.len() as int) =~= prefix@);
    true
}

/// A line defines at most one kind.
proof fn lemma_one_kind(line: Seq<u8>, k1: DefinitionKind, k2: DefinitionKind)
    requires
        line.len() >= kind_prefix(k1).len(),
        line.len() >= kind_prefix(k2).len(),
        line.subrange(0, kind_prefix(k1).len() as int) == kind_prefix(k1),
        line.subrange(0, kind_prefix(k2).len() as int) == kind_prefix(k2),
    ensures
        k1 == k2,
{
    assert(line.subrange(0, kind_prefix(k1).len() as int)[2] == line[2]);
    assert(line.subrange(0, kind_prefix(k2).len() as int)[2] == line[2]);
}

/// The kind and ID value that `line` defines; `None` where it defines none.
pub fn parse_definition(line: &[u8]) -> (r: Option<(DefinitionKind, Vec<u8>)>)
    ensures
        r matches Some((k, id)) ==> defines(line@, k, id@),
        r is None ==> forall|k: DefinitionKind, id: Seq<u8>| !defines(line@, k, id),
{
    let kinds = [DefinitionKind::Contig, DefinitionKind::Info, DefinitionKind::Format];
    let mut found: Option<DefinitionKind> = None;
    let mut t: usize = 0;
    while t < 3
        invariant
            t <= 3,
            kinds@ == seq![DefinitionKind::Contig, DefinitionKind::Info, DefinitionKind::Format],
            found matches Some(k) ==> line@.len() >= kind_prefix(k).len()
                && line@.subrange(0, kind_prefix(k).len() as int) == kind_prefix(k),
            found is None ==> forall|j: int| 0 <= j < t ==> !(line@.len() >= kind_prefix(#[trigger] kinds@[j]).len()
                && line@.subrange(0, kind_prefix(kinds@[j]).len() as int) == kind_prefix(kinds@[j])),
        decreases 3 - t,
    {
        if found.is_none() {
            let k = kinds[t];
            if starts_with(line, &prefix_of(k)) {
                found = Some(k);
            }
        }
        t += 1;
    }
    let k = match found {
        None => {
            proof {
                assert forall|k: DefinitionKind, id: Seq<u8>| !defines(line@, k, id) by {
                    let j: int = match k {
                        DefinitionKind::Contig => 0,
                        DefinitionKind::Info => 1,
                        DefinitionKind::Format => 2,
                    };
                    assert(kinds@[j] == k);
                }
            }
            return None;
        },
        Some(k) => k,
    };
    proof {
        assert forall|k2: DefinitionKind, id: Seq<u8>| defines(line@, k2, id) implies k2 == k by {
            lemma_one_kind(line@, k, k2);
        }
    }
    let p = prefix_of(k).len();
    let mut j: usize = p;
    while j < line.len() && line[j] != 44u8 && line[j] != 62u8
        invariant
            p == kind_prefix(k).len(),
            p <= j <= line@.len(),
            forall|i: int| p <= i < j ==> is_id_byte(#[trigger] line@[i]),
        decreases line.len() - j,
    {
        j += 1;
    }
    let ghost pl = p as int;
    proof {
        // Any ID value that the line defines for `k` ends where the scan stopped.
        assert forall|id: Seq<u8>| defines(line@, k, id) implies id.len() == j - pl by {
            if id.len() < j - pl {
                assert(line@.subrange(pl, pl + id.len()) == id);
                assert(is_id_byte(line@[pl + id.len()]));
            } else if id.len() > j - pl {
                assert(line@.subrange(pl, pl + id.len())[j - pl] == line@[j as int]);
                assert(is_id_byte(id[j - pl]));
            }
        }
    }
    if j == p || j == line.len() || line[line.len() - 1] != 62u8 {
        return None;
    }
    let mut id: Vec<u8> = Vec::with_capacity(j - p);
    let mut i: usize = p;
    while i < j
        invariant
            p <= i <= j <= line@.len(),
            id@ == line@.subrange(p as int, i as int),
        decreases j - i,
    {
        id.push(line[i]);
        i += 1;
        assert(id@ =~= line@.subrange(p as int, i as int));
    }
    assert(line@.subrange(0, pl) == kind_prefix(k));
    assert(forall|x: int| 0 <= x < id@.len() ==> id@[x] == line@[pl + x]);
    Some((k, id))
}

/// A line defines one kind and one ID value at most.
pub proof fn lemma_unique_definition(line: Seq<u8>, k1: DefinitionKind, id1: Seq<u8>, k2: DefinitionKind, id2: Seq<u8>)
    requires
        defines(line, k1, id1),
        defines(line, k2, id2),
    ensures
        k1 == k2,
        id1 == id2,
{
    lemma_one_kind(line, k1, k2);
    let p = kind_prefix(k1).len() as int;
    if id1.len() < id2.len() {
        assert(line.subrange(p, p + id2.len())[id1.len() as int] == line[p + id1.len()]);
        assert(is_id_byte(id2[id1.len() as int]));
    } else if id2.len() < id1.len() {
        assert(line.subrange(p, p + id1.len())[id2.len() as int] == line[p + id2.len()]);
        assert(is_id_byte(id1[id2.len() as int]));
    }
    assert(id1 =~= id2) by {
        assert forall|i: int| 0 <= i < id1.len() implies id1[i] == id2[i] by {
            assert(line.subrange(p, p + id1.len())[i] == line[p + i]);
            assert(line.subrange(p, p + id2.len())[i] == line[p + i]);
        }
    }
}

/// The opening of a line of kind `k` up to its `=`: `##contig=`, `##INFO=`
/// or `##FORMAT=`.
pub open spec fn kind_key(k: DefinitionKind) -> Seq<u8> {
    match k {
        DefinitionKind::Contig => kind_prefix(k).subrange(0, 9),
        DefinitionKind::Info => kind_prefix(k).subrange(0, 7),
        DefinitionKind::Format => kind_prefix(k).subrange(0, 9),
    }
}

/// `line` begins with `p`.
pub open spec fn begins_with(line: Seq<u8>, p: Seq<u8>) -> bool {
    line.len() >= p.len() && line.subrange(0, p.len() as int) == p
}

/// A meta-information line of a kind that declares no dictionary entry
/// here (`##fileformat=...`, `##FILTER=<...>`): `##`, and none of the three
/// openings of the kinds that do.
pub open spec fn other_meta_line(line: Seq<u8>) -> bool {
    &&& line.len() >= 2
    &&& line[0] == 35u8
    &&& line[1] == 35u8
    &&& forall|k: DefinitionKind| !begins_with(line, #[trigger] kind_key(k))
}

fn key_of(k: DefinitionKind) -> (r: Vec<u8>)
    ensures
        r@ == kind_key(k),
{
    let r = match k {
        DefinitionKind::Contig => vec![35u8, 35, 99, 111, 110, 116, 105, 103, 61],
        DefinitionKind::Info => vec![35u8, 35, 73, 78, 70, 79, 61],
        DefinitionKind::Format => vec![35u8, 35, 70, 79, 82, 77, 65, 84, 61],
    };
    assert(r@ =~= kind_key(k));
    r
}

/// Whether `line` is a meta-information line of another kind.
pub fn is_other_meta_line(line: &[u8]) -> (r: bool)
    ensures
        r == other_meta_line(line@),
{
    if line.len() < 2 || line[0] != 35u8 || line[1] != 35u8 {
        return false;
    }
    let c = starts_with(line, &key_of(DefinitionKind::Contig));
    let i = starts_with(line, &key_of(DefinitionKind::Info));
    let f = starts_with(line, &key_of(DefinitionKind::Format));
    if c || i || f {
        return false;
    }
    assert forall|k: DefinitionKind| !begins_with(line@, #[trigger] kind_key(k)) by {
        match k {
            DefinitionKind::Contig => {},
            DefinitionKind::Info => {},
            DefinitionKind::Format => {},
        }
    }
    true
}

/// A line that defines an entry is no meta-information line of another kind.
pub proof fn lemma_defines_not_other(line: Seq<u8>, k: DefinitionKind, id: Seq<u8>)
    requires
        defines(line, k, id),
    ensures
        !other_meta_line(line),
{
    let p = kind_prefix(k);
    let key = kind_key(k);
    assert(line.subrange(0, p.len() as int) == p);
    assert(line.subrange(0, key.len() as int) =~= key) by {
        assert forall|i: int| 0 <= i < key.len() implies line.subrange(0, key.len() as int)[i] == key[i] by {
            assert(line.subrange(0, p.len() as int)[i] == p[i]);
        }
    }
    assert(begins_with(line, kind_key(k)));
}

} // verus!
