//! Wavefront OBJ text of the demo meshes.
//!
//! The text is read line by line; a line is split into whitespace-separated
//! words. Empty lines and comments (`#`) are skipped. A `v` line with three
//! coordinates that read as numbers adds a vertex; a `f` line adds a face of
//! 1-based vertex references (`v`, `v/vt`, `v/vt/vn` or `v//vn`; negative
//! references count back from the latest vertex), fan-triangulated, each
//! triangle taking the next material of the cycle 0, 1, 2. Malformed
//! coordinates skip their line, malformed references are skipped. Coordinate
//! values are read by the caller; this module keeps each vertex's three
//! coordinate words, and reads a whole text once told which vertex lines'
//! coordinates read as numbers.
use vstd::prelude::*;

verus! {

/// Unicode `White_Space`, the separator of `split_whitespace` and `trim`.
pub open spec fn is_ws(c: char) -> bool {
    let v = c as int;
    (0x09 <= v <= 0x0D) || v == 0x20 || v == 0x85 || v == 0xA0 || v == 0x1680 || (0x2000 <= v
        <= 0x200A) || v == 0x2028 || v == 0x2029 || v == 0x202F || v == 0x205F || v == 0x3000
}

fn is_ws_exec(c: char) -> (r: bool)
    ensures
        r == is_ws(c),
{
    let v = c as u32;
    (0x09 <= v && v <= 0x0D) || v == 0x20 || v == 0x85 || v == 0xA0 || v == 0x1680 || (0x2000
        <= v && v <= 0x200A) || v == 0x2028 || v == 0x2029 || v == 0x202F || v == 0x205F || v
        == 0x3000
}

/// The words of `l`: its maximal runs of non-whitespace characters.
pub open spec fn words(l: Seq<char>) -> Seq<Seq<char>>
    decreases l.len(),
{
    if l.len() == 0 {
        seq![]
    } else {
        let w = words(l.drop_last());
        let c = l.last();
        if is_ws(c) {
            w
        } else if l.len() >= 2 && !is_ws(l[l.len() - 2]) {
            w.update(w.len() - 1, w.last().push(c))
        } else {
            w.push(seq![c])
        }
    }
}

proof fn lemma_words_nonempty_after_word_char(l: Seq<char>)
    requires
        l.len() > 0,
        !is_ws(l.last()),
    ensures
        words(l).len() > 0,
    decreases l.len(),
{
    if l.len() >= 2 && !is_ws(l[l.len() - 2]) {
        assert(l.drop_last().last() == l[l.len() - 2]);
        lemma_words_nonempty_after_word_char(l.drop_last());
    }
}

proof fn lemma_words_extend_ok(l: Seq<char>)
    requires
        l.len() >= 2,
        !is_ws(l[l.len() - 2]),
    ensures
        words(l.drop_last()).len() > 0,
{
    assert(l.drop_last().last() == l[l.len() - 2]);
    lemma_words_nonempty_after_word_char(l.drop_last());
}

/// The character sequences held by a vector of character vectors.
pub open spec fn views(w: Seq<Vec<char>>) -> Seq<Seq<char>> {
    w.map_values(|v: Vec<char>| v@)
}

/// Split a line into its words.
pub fn split_words(line: &Vec<char>) -> (w: Vec<Vec<char>>)
    ensures
        views(w@) == words(line@),
{
    let mut w: Vec<Vec<char>> = Vec::new();
    let n = line.len();
    let mut i: usize = 0;
    while i < n
        invariant
            n == line@.len(),
            i <= n,
            views(w@) == words(line@.subrange(0, i as int)),
        decreases n - i,
    {
        let c = line[i];
        let pre = Ghost(line@.subrange(0, i as int));
        let next = Ghost(line@.subrange(0, i + 1));
        assert(next@.drop_last() =~= pre@);
        assert(next@.last() == c);
        if is_ws_exec(c) {
        } else if i >= 1 && !is_ws_exec(line[i - 1]) {
            proof {
                assert(next@[next@.len() - 2] == line@[i - 1]);
                lemma_words_extend_ok(next@);
            }
            let ghost old_w = w@;
            let mut last = w.pop().unwrap();
            let ghost old_last = last@;
            last.push(c);
            w.push(last);
            proof {
                assert(old_last == views(old_w).last());
                assert(views(w@) =~= views(old_w).update(
                    views(old_w).len() - 1,
                    views(old_w).last().push(c),
                ));
                assert(views(w@) =~= words(next@));
            }
        } else {
            let ghost old_w = w@;
            let mut fresh: Vec<char> = Vec::new();
            fresh.push(c);
            assert(fresh@ =~= seq![c]);
            w.push(fresh);
            proof {
                assert(views(w@) =~= views(old_w).push(seq![c]));
                assert(views(w@) =~= words(next@));
            }
        }
        i += 1;
    }
    assert(line@.subrange(0, n as int) =~= line@);
    w
}

/// Whether `c` is an ASCII decimal digit.
pub open spec fn is_digit(c: char) -> bool {
    '0' <= c <= '9'
}

/// The value of a string of decimal digits.
pub open spec fn digits_value(s: Seq<char>) -> int
    decreases s.len(),
{
    if s.len() == 0 {
        0
    } else {
        10 * digits_value(s.drop_last()) + (s.last() as int - '0' as int)
    }
}

/// Whether every character of `s` is a decimal digit.
pub open spec fn all_digits(s: Seq<char>) -> bool {
    forall|k: int| 0 <= k < s.len() ==> is_digit(#[trigger] s[k])
}

/// `s` without one leading sign character.
pub open spec fn unsigned_part(s: Seq<char>) -> Seq<char> {
    if s.len() > 0 && (s[0] == '-' || s[0] == '+') {
        s.drop_first()
    } else {
        s
    }
}

/// The `i32` a word reads as (`str::parse::<i32>`): an optional `+` or `-`,
/// then at least one decimal digit, with the value in range.
pub open spec fn parse_i32_spec(s: Seq<char>) -> Option<i32> {
    let body = unsigned_part(s);
    if s.len() == 0 || body.len() == 0 || !all_digits(body) {
        None
    } else {
        let v = if s[0] == '-' {
            -digits_value(body)
        } else {
            digits_value(body)
        };
        if i32::MIN <= v <= i32::MAX {
            Some(v as i32)
        } else {
            None
        }
    }
}

proof fn lemma_digits_value_grows(s: Seq<char>, k: int)
    requires
        0 <= k <= s.len(),
        forall|j: int| 0 <= j < s.len() ==> is_digit(#[trigger] s[j]),
    ensures
        digits_value(s) >= digits_value(s.subrange(0, k)),
        digits_value(s) >= 0,
    decreases s.len(),
{
    if s.len() > 0 {
        let p = s.drop_last();
        assert forall|j: int| 0 <= j < p.len() implies is_digit(#[trigger] p[j]) by {
            assert(p[j] == s[j]);
        }
        if k == s.len() {
            assert(s.subrange(0, k) =~= s);
            lemma_digits_value_grows(p, 0);
        } else {
            lemma_digits_value_grows(p, k);
            assert(p.subrange(0, k) =~= s.subrange(0, k));
        }
    } else {
        assert(s.subrange(0, k) =~= s);
    }
}

/// Read a word as an `i32` (`str::parse::<i32>`).
pub fn parse_i32_word(t: &[char]) -> (r: Option<i32>)
    ensures
        r == parse_i32_spec(t@),
{
    let n = t.len();
    if n == 0 {
        return None;
    }
    let neg = t[0] == '-';
    let start: usize = if t[0] == '-' || t[0] == '+' {
        1
    } else {
        0
    };
    let ghost body = unsigned_part(t@);
    assert(body =~= t@.subrange(start as int, n as int));
    if start == n {
        return None;
    }
    let mut acc: i64 = 0;
    let mut i: usize = start;
    while i < n
        invariant
            start <= i <= n,
            n == t@.len(),
            body == t@.subrange(start as int, n as int),
            body == unsigned_part(t@),
            n > 0,
            forall|k: int| start <= k < i ==> is_digit(#[trigger] t@[k]),
            acc == digits_value(t@.subrange(start as int, i as int)),
            0 <= acc <= 0x8000_0000,
        decreases n - i,
    {
        let c = t[i];
        if !('0' <= c && c <= '9') {
            proof {
                assert(body[i - start] == c);
                assert(!is_digit(body[i - start]));
                assert(!all_digits(body));
                assert(parse_i32_spec(t@) is None);
            }
            return None;
        }
        let d = (c as u32 - '0' as u32) as i64;
        proof {
            assert(t@.subrange(start as int, i + 1).drop_last() =~= t@.subrange(
                start as int,
                i as int,
            ));
        }
        acc = acc * 10 + d;
        i += 1;
        assert(acc == digits_value(t@.subrange(start as int, i as int)));
        if acc > 0x8000_0000 {
            proof {
                let pre = t@.subrange(start as int, i as int);
                if all_digits(body) {
                    lemma_digits_value_grows(body, i - start);
                    assert(body.subrange(0, i - start) =~= pre);
                    assert(digits_value(body) > 0x8000_0000);
                }
                assert(parse_i32_spec(t@) is None);
            }
            return None;
        }
    }
    proof {
        assert(t@.subrange(start as int, n as int) =~= body);
        assert forall|k: int| 0 <= k < body.len() implies is_digit(#[trigger] body[k]) by {
            assert(body[k] == t@[k + start]);
        }
    }
    let v = if neg {
        -acc
    } else {
        acc
    };
    if v < i32::MIN as i64 || v > i32::MAX as i64 {
        return None;
    }
    Some(v as i32)
}

/// The part of a word before its first `/` (`split('/').next()`).
pub open spec fn before_slash(t: Seq<char>) -> Seq<char>
    decreases t.len(),
{
    if t.len() == 0 || t[0] == '/' {
        seq![]
    } else {
        seq![t[0]] + before_slash(t.drop_first())
    }
}

proof fn lemma_before_slash(t: Seq<char>, i: int)
    requires
        0 <= i <= t.len(),
        forall|k: int| 0 <= k < i ==> #[trigger] t[k] != '/',
        i == t.len() || t[i] == '/',
    ensures
        before_slash(t) == t.subrange(0, i),
    decreases i,
{
    if i == 0 {
        assert(t.subrange(0, 0) =~= seq![]);
    } else {
        let d = t.drop_first();
        assert forall|k: int| 0 <= k < i - 1 implies #[trigger] d[k] != '/' by {
            assert(d[k] == t[k + 1]);
        }
        lemma_before_slash(d, i - 1);
        assert(seq![t[0]] + d.subrange(0, i - 1) =~= t.subrange(0, i));
    }
}

/// The vertex-reference part of a face word.
pub fn word_before_slash(t: &Vec<char>) -> (r: Vec<char>)
    ensures
        r@ == before_slash(t@),
{
    let mut r: Vec<char> = Vec::new();
    let n = t.len();
    let mut i: usize = 0;
    while i < n && t[i] != '/'
        invariant
            n == t@.len(),
            i <= n,
            r@ == t@.subrange(0, i as int),
            forall|k: int| 0 <= k < i ==> #[trigger] t@[k] != '/',
        decreases n - i,
    {
        r.push(t[i]);
        i += 1;
        assert(r@ =~= t@.subrange(0, i as int));
    }
    proof {
        lemma_before_slash(t@, i as int);
    }
    r
}

/// A vertex reference resolved against `n` vertices: negative references
/// count back from the latest vertex (`-1` is the latest).
pub open spec fn resolve_ref(v: int, n: int) -> int {
    if v < 0 {
        n + v + 1
    } else {
        v
    }
}

/// The 0-based vertex indices of a face's words, against `n` vertices;
/// words that do not read as a reference are skipped.
pub open spec fn face_refs(ws: Seq<Seq<char>>, n: int) -> Seq<i32>
    decreases ws.len(),
{
    if ws.len() == 0 {
        seq![]
    } else {
        face_refs(ws.drop_last(), n) + match parse_i32_spec(before_slash(ws.last())) {
            Some(v) => seq![(resolve_ref(v as int, n) - 1) as i32],
            None => seq![],
        }
    }
}

/// The first `k` fan triangles of `face`.
pub open spec fn fan(face: Seq<i32>, k: nat) -> Seq<i32>
    decreases k,
{
    if k == 0 {
        seq![]
    } else {
        fan(face, (k - 1) as nat) + seq![face[0], face[k as int], face[(k + 1) as int]]
    }
}

/// `k` materials of the cycle 0, 1, 2 starting after material `m`.
pub open spec fn material_cycle(m: int, k: nat) -> Seq<u8> {
    Seq::new(k, |j: int| ((m + j) % 3) as u8)
}

/// How a line of OBJ text reads.
pub enum ObjLine {
    /// Empty, a comment, an unknown record or an incomplete vertex.
    Skip,
    /// A vertex record with its three coordinate words.
    Vertex(Vec<char>, Vec<char>, Vec<char>),
    /// A face record with its reference words.
    Face(Vec<Vec<char>>),
}

/// Whether a classified line is the given reading of `line`.
pub open spec fn line_reads_as(line: Seq<char>, r: ObjLine) -> bool {
    let w = words(line);
    if w.len() == 0 || w[0][0] == '#' {
        r is Skip
    } else if w[0] == seq!['v'] {
        if w.len() >= 4 {
            match r {
                ObjLine::Vertex(x, y, z) => x@ == w[1] && y@ == w[2] && z@ == w[3],
                _ => false,
            }
        } else {
            r is Skip
        }
    } else if w[0] == seq!['f'] {
        match r {
            ObjLine::Face(fs) => views(fs@) == w.drop_first(),
            _ => false,
        }
    } else {
        r is Skip
    }
}

fn is_tag(w: &Vec<char>, tag: char) -> (r: bool)
    ensures
        r == (w@ == seq![tag]),
{
    let r = w.len() == 1 && w[0] == tag;
    if r {
        assert(w@ =~= seq![tag]);
    }
    r
}

/// Read one line of OBJ text.
pub fn classify_line(line: &Vec<char>) -> (r: ObjLine)
    ensures
        line_reads_as(line@, r),
{
    let mut w = split_words(line);
    if w.len() == 0 {
        return ObjLine::Skip;
    }
    assert(w@[0]@ == views(w@)[0]);
    if w[0].len() > 0 && w[0][0] == '#' {
        return ObjLine::Skip;
    }
    if is_tag(&w[0], 'v') {
        if w.len() < 4 {
            return ObjLine::Skip;
        }
        let x = w[1].clone();
        let y = w[2].clone();
        let z = w[3].clone();
        assert(views(w@)[1] == w@[1]@ && views(w@)[2] == w@[2]@ && views(w@)[3] == w@[3]@);
        return ObjLine::Vertex(x, y, z);
    }
    if is_tag(&w[0], 'f') {
        let ghost all = w@;
        let _tag = w.remove(0);
        assert(views(w@) =~= views(all).drop_first());
        return ObjLine::Face(w);
    }
    ObjLine::Skip
}

/// The lines of a text: split at each `\n` (the last line may be empty).
pub open spec fn split_lines(t: Seq<char>) -> Seq<Seq<char>>
    decreases t.len(),
{
    if t.len() == 0 {
        seq![seq![]]
    } else {
        let ls = split_lines(t.drop_last());
        if t.last() == '\n' {
            ls.push(seq![])
        } else {
            ls.update(ls.len() - 1, ls.last().push(t.last()))
        }
    }
}

proof fn lemma_split_lines_nonempty(t: Seq<char>)
    ensures
        split_lines(t).len() >= 1,
    decreases t.len(),
{
    if t.len() > 0 {
        lemma_split_lines_nonempty(t.drop_last());
    }
}

/// Split a text into its lines (each without its `\n`). A line ending in
/// `\r\n` keeps its `\r`, which reads as whitespace.
pub fn text_lines(text: &str) -> (ls: Vec<Vec<char>>)
    ensures
        views(ls@) == split_lines(text@),
{
    let mut ls: Vec<Vec<char>> = Vec::new();
    let mut cur: Vec<char> = Vec::new();
    let ghost t = text@;
    assert(t.take(0) =~= seq![]);
    for c in it: text.chars()
        invariant
            it.seq() == t,
            views(ls@) + seq![cur@] == split_lines(t.take(it.index() as int)),
    {
        let ghost i = it.index() as int;
        proof {
            assert(t.take(i + 1).drop_last() =~= t.take(i));
            assert(t.take(i + 1).last() == c);
            lemma_split_lines_nonempty(t.take(i));
        }
        let ghost before = split_lines(t.take(i));
        if c == '\n' {
            let done = cur;
            ls.push(done);
            cur = Vec::new();
            proof {
                assert(views(ls@) + seq![cur@] =~= before.push(seq![]));
            }
        } else {
            let ghost old_cur = cur@;
            cur.push(c);
            proof {
                assert(views(ls@) + seq![cur@] =~= before.update(
                    before.len() - 1,
                    before.last().push(c),
                ));
            }
        }
    }
    ls.push(cur);
    assert(t.take(t.len() as int) =~= t);
    assert(views(ls@) =~= split_lines(t));
    ls
}

/// Number of triangles whose materials cycle 0, 1, 2 from the first.
pub open spec fn cycles_from_zero(materials: Seq<u8>) -> bool {
    forall|j: int| 0 <= j < materials.len() ==> #[trigger] materials[j] as int == j % 3
}

/// The triangles gathered from OBJ text: the vertex count so far, three
/// indices per triangle, one material per triangle, and the next material.
pub struct ObjBuilder {
    pub vertex_count: usize,
    pub indices: Vec<i32>,
    pub material_indices: Vec<u8>,
    pub material_index: u8,
}

impl ObjBuilder {
    /// Nothing read yet.
    pub fn new() -> (b: Self)
        ensures
            b.vertex_count == 0,
            b.indices@ == Seq::<i32>::empty(),
            b.material_indices@ == Seq::<u8>::empty(),
            b.material_index == 0,
    {
        ObjBuilder {
            vertex_count: 0,
            indices: Vec::new(),
            material_indices: Vec::new(),
            material_index: 0,
        }
    }

    /// Count one vertex whose coordinates were read.
    pub fn add_vertex(&mut self)
        requires
            old(self).vertex_count < i32::MAX,
        ensures
            final(self).vertex_count == old(self).vertex_count + 1,
            final(self).indices == old(self).indices,
            final(self).material_indices == old(self).material_indices,
            final(self).material_index == old(self).material_index,
    {
        self.vertex_count += 1;
    }

    /// Add a face from its reference words: each word that reads as a
    /// reference gives a 0-based vertex index; a face of at least three
    /// indices is fan-triangulated, each triangle taking the next material.
    pub fn add_face(&mut self, words: &Vec<Vec<char>>)
        requires
            old(self).vertex_count <= i32::MAX,
            old(self).material_index < 3,
        ensures
            final(self).vertex_count == old(self).vertex_count,
            final(self).material_index < 3,
            ({
                let face = face_refs(views(words@), old(self).vertex_count as int);
                if face.len() < 3 {
                    &&& final(self).indices@ == old(self).indices@
                    &&& final(self).material_indices@ == old(self).material_indices@
                    &&& final(self).material_index == old(self).material_index
                } else {
                    let k = (face.len() - 2) as nat;
                    let base = old(self).indices@.len() as int;
                    &&& final(self).indices@ == old(self).indices@ + fan(face, k)
                    &&& final(self).indices@.len() == base + 3 * k
                    &&& forall|t: int|
                        #![trigger final(self).indices@[base + 3 * t]]
                        #![trigger final(self).indices@[base + 3 * t + 1]]
                        #![trigger final(self).indices@[base + 3 * t + 2]]
                        0 <= t < k ==> final(self).indices@[base + 3 * t] == face[0]
                            && final(self).indices@[base + 3 * t + 1] == face[t + 1]
                            && final(self).indices@[base + 3 * t + 2] == face[t + 2]
                    &&& final(self).material_indices@ == old(self).material_indices@
                        + material_cycle(old(self).material_index as int, k)
                    &&& final(self).material_index == ((old(self).material_index as int + k)
                        % 3) as u8
                }
            }),
    {
        let n = self.vertex_count;
        let mut face: Vec<i32> = Vec::new();
        let m = words.len();
        let mut i: usize = 0;
        while i < m
            invariant
                m == words@.len(),
                i <= m,
                n <= i32::MAX,
                face@ == face_refs(views(words@).subrange(0, i as int), n as int),
            decreases m - i,
        {
            let part = word_before_slash(&words[i]);
            let parsed = parse_i32_word(part.as_slice());
            proof {
                let pre = views(words@).subrange(0, i as int);
                let next = views(words@).subrange(0, i + 1);
                assert(next.drop_last() =~= pre);
                assert(next.last() == words@[i as int]@);
            }
            match parsed {
                Some(vi) => {
                    let mut vi = vi;
                    if vi < 0 {
                        vi = n as i32 + vi + 1;
                    }
                    face.push(vi - 1);
                },
                None => {},
            }
            proof {
                let next = views(words@).subrange(0, i + 1);
                assert(face@ =~= face_refs(next, n as int));
            }
            i += 1;
        }
        assert(views(words@).subrange(0, m as int) =~= views(words@));
        if face.len() < 3 {
            return ;
        }
        proof {
            lemma_fan_triangles(face@, (face@.len() - 2) as nat);
        }
        let ghost k = (face@.len() - 2) as nat;
        let ghost start_indices = self.indices@;
        let ghost start_materials = self.material_indices@;
        let ghost m0 = self.material_index as int;
        let last = face.len() - 1;
        let mut j: usize = 1;
        while j < last
            invariant
                face@.len() >= 3,
                last == face@.len() - 1,
                1 <= j <= last,
                self.indices@ == start_indices + fan(face@, (j - 1) as nat),
                self.material_indices@ == start_materials + material_cycle(m0, (j - 1) as nat),
                self.material_index as int == (m0 + j - 1) % 3,
                self.vertex_count == old(self).vertex_count,
            decreases last - j,
        {
            self.indices.push(face[0]);
            self.indices.push(face[j]);
            self.indices.push(face[j + 1]);
            self.material_indices.push(self.material_index);
            self.material_index = (self.material_index + 1) % 3;
            proof {
                assert(self.indices@ =~= start_indices + fan(face@, j as nat));
                assert(self.material_indices@ =~= start_materials + material_cycle(m0, j as nat));
                assert((((m0 + j - 1) % 3) + 1) % 3 == (m0 + j) % 3);
            }
            j += 1;
        }
        proof {
            let k = (face@.len() - 2) as nat;
            let base = start_indices.len() as int;
            let f = fan(face@, k);
            assert forall|t: int|
                #![trigger self.indices@[base + 3 * t]]
                #![trigger self.indices@[base + 3 * t + 1]]
                #![trigger self.indices@[base + 3 * t + 2]]
                0 <= t < k implies self.indices@[base + 3 * t] == face@[0] && self.indices@[base + 3
                * t + 1] == face@[t + 1] && self.indices@[base + 3 * t + 2] == face@[t + 2] by {
                assert(f[3 * t + 2] == face@[t + 2]);
                assert(f[3 * t] == face@[0]);
                assert(f[3 * t + 1] == face@[t + 1]);
                assert(self.indices@[base + 3 * t] == f[3 * t]);
                assert(self.indices@[base + 3 * t + 1] == f[3 * t + 1]);
                assert(self.indices@[base + 3 * t + 2] == f[3 * t + 2]);
            }
        }
    }

    /// Whether the gathered data can make a mesh: at least three vertices and
    /// at least one triangle's worth of indices.
    pub fn is_buildable(&self) -> (r: bool)
        ensures
            r == (self.vertex_count >= 3 && self.indices@.len() >= 3),
    {
        self.vertex_count >= 3 && self.indices.len() >= 3
    }
}

/// Triangles added by a face come with one material each.
proof fn lemma_fan_len(face: Seq<i32>, k: nat)
    ensures
        fan(face, k).len() == 3 * k,
    decreases k,
{
    if k > 0 {
        lemma_fan_len(face, (k - 1) as nat);
    }
}

/// Fan triangulation: triangle `t` of a face's fan joins the face's first
/// corner with corners `t + 1` and `t + 2`, three indices per triangle.
pub proof fn lemma_fan_triangles(face: Seq<i32>, k: nat)
    ensures
        fan(face, k).len() == 3 * k,
        forall|t: int|
            #![trigger fan(face, k)[3 * t]]
            #![trigger fan(face, k)[3 * t + 1]]
            #![trigger fan(face, k)[3 * t + 2]]
            0 <= t < k ==> fan(face, k)[3 * t] == face[0] && fan(face, k)[3 * t + 1] == face[t + 1]
                && fan(face, k)[3 * t + 2] == face[t + 2],
    decreases k,
{
    if k > 0 {
        let j = (k - 1) as nat;
        lemma_fan_triangles(face, j);
        let f = fan(face, k);
        let g = fan(face, j);
        assert(f == g + seq![face[0], face[k as int], face[(k + 1) as int]]);
        assert forall|t: int|
            #![trigger f[3 * t]]
            #![trigger f[3 * t + 1]]
            #![trigger f[3 * t + 2]]
            0 <= t < k implies f[3 * t] == face[0] && f[3 * t + 1] == face[t + 1] && f[3 * t + 2]
                == face[t + 2] by {
            if t < j {
                assert(f[3 * t] == g[3 * t]);
                assert(f[3 * t + 1] == g[3 * t + 1]);
                assert(f[3 * t + 2] == g[3 * t + 2]);
                assert(g[3 * t + 2] == face[t + 2]);
            } else {
                assert(t == j && 3 * t == g.len());
                assert(f[3 * t] == face[0]);
                assert(f[3 * t + 1] == face[k as int]);
                assert(f[3 * t + 2] == face[(k + 1) as int]);
            }
        }
    }
}

/// Adding a face keeps three indices per material and keeps the materials
/// cycling 0, 1, 2 from the first triangle: a builder that starts empty
/// assigns triangle `j` material `j % 3`.
pub proof fn lemma_face_keeps_material_cycle(
    indices: Seq<i32>,
    materials: Seq<u8>,
    material_index: u8,
    face: Seq<i32>,
)
    requires
        indices.len() == 3 * materials.len(),
        cycles_from_zero(materials),
        material_index as int == materials.len() % 3,
        face.len() >= 3,
    ensures
        ({
            let k = (face.len() - 2) as nat;
            let mi = indices + fan(face, k);
            let mm = materials + material_cycle(material_index as int, k);
            &&& mi.len() == 3 * mm.len()
            &&& cycles_from_zero(mm)
            &&& ((material_index as int + k) % 3) == mm.len() % 3
        }),
{
    let k = (face.len() - 2) as nat;
    lemma_fan_len(face, k);
    let mm = materials + material_cycle(material_index as int, k);
    assert forall|j: int| 0 <= j < mm.len() implies #[trigger] mm[j] as int == j % 3 by {
        if j >= materials.len() {
            let q = j - materials.len();
            assert(mm[j] == ((material_index as int + q) % 3) as u8);
            assert((materials.len() % 3 + q) % 3 == (materials.len() + q) % 3) by (nonlinear_arith);
        }
    }
    assert((materials.len() % 3 + k) % 3 == (materials.len() + k) % 3) by (nonlinear_arith);
}

/// The lines of an OBJ text, each classified.
pub fn obj_records(text: &str) -> (r: Vec<ObjLine>)
    ensures
        r@.len() == split_lines(text@).len(),
        forall|i: int| 0 <= i < r@.len() ==> line_reads_as(split_lines(text@)[i], #[trigger] r@[i]),
{
    let ls = text_lines(text);
    let ghost lines = split_lines(text@);
    let mut r: Vec<ObjLine> = Vec::new();
    let n = ls.len();
    let mut i: usize = 0;
    while i < n
        invariant
            n == ls@.len(),
            views(ls@) == lines,
            lines.len() == n,
            i <= n,
            r@.len() == i,
            forall|j: int| 0 <= j < i ==> line_reads_as(lines[j], #[trigger] r@[j]),
        decreases n - i,
    {
        let c = classify_line(&ls[i]);
        assert(views(ls@)[i as int] == ls@[i as int]@);
        r.push(c);
        i += 1;
    }
    r
}

/// What reading the classified lines `records` gathers, as
/// `(vertex count, indices, materials, next material)`, when `ok[i]` tells
/// whether the coordinates of vertex line `i` read as numbers (it is not
/// looked at for other lines).
pub open spec fn obj_gathered(records: Seq<ObjLine>, ok: Seq<bool>) -> (nat, Seq<i32>, Seq<u8>, int)
    decreases records.len(),
{
    if records.len() == 0 {
        (0, seq![], seq![], 0)
    } else {
        let (n, idx, mat, m) = obj_gathered(records.drop_last(), ok);
        match records.last() {
            ObjLine::Vertex(_, _, _) => if ok[records.len() - 1] {
                (n + 1, idx, mat, m)
            } else {
                (n, idx, mat, m)
            },
            ObjLine::Face(ws) => {
                let face = face_refs(views(ws@), n as int);
                if face.len() < 3 {
                    (n, idx, mat, m)
                } else {
                    let k = (face.len() - 2) as nat;
                    (n, idx + fan(face, k), mat + material_cycle(m, k), (m + k) % 3)
                }
            },
            ObjLine::Skip => (n, idx, mat, m),
        }
    }
}

/// Read the classified lines of an OBJ text in order: a vertex line whose
/// coordinates read as numbers (`vertex_ok`) adds a vertex, a face line adds
/// its fan of triangles against the vertices so far.
pub fn assemble_obj(records: &Vec<ObjLine>, vertex_ok: &Vec<bool>) -> (b: ObjBuilder)
    requires
        vertex_ok@.len() == records@.len(),
        records@.len() < i32::MAX,
    ensures
        (b.vertex_count as nat, b.indices@, b.material_indices@, b.material_index as int)
            == obj_gathered(records@, vertex_ok@),
{
    let mut b = ObjBuilder::new();
    let n = records.len();
    let mut i: usize = 0;
    assert(records@.take(0) =~= Seq::<ObjLine>::empty());
    while i < n
        invariant
            n == records@.len(),
            n < i32::MAX,
            vertex_ok@.len() == n,
            i <= n,
            b.vertex_count <= i,
            b.material_index < 3,
            (b.vertex_count as nat, b.indices@, b.material_indices@, b.material_index as int)
                == obj_gathered(records@.take(i as int), vertex_ok@),
        decreases n - i,
    {
        proof {
            let t = records@.take(i + 1);
            assert(t.drop_last() =~= records@.take(i as int));
            assert(t.last() == records@[i as int]);
        }
        match &records[i] {
            ObjLine::Vertex(_, _, _) => {
                if vertex_ok[i] {
                    b.add_vertex();
                }
            },
            ObjLine::Face(words) => {
                b.add_face(words);
            },
            ObjLine::Skip => {},
        }
        i += 1;
    }
    assert(records@.take(n as int) =~= records@);
    b
}

/// Over a whole text the gathered mesh has three indices per material,
/// triangle `j` has material `j % 3`, the next material continues the cycle,
/// and there is at most one vertex per line.
pub proof fn lemma_obj_materials_cycle(records: Seq<ObjLine>, ok: Seq<bool>)
    ensures
        ({
            let (n, idx, mat, m) = obj_gathered(records, ok);
            &&& idx.len() == 3 * mat.len()
            &&& cycles_from_zero(mat)
            &&& m == mat.len() % 3
            &&& n <= records.len()
        }),
    decreases records.len(),
{
    if records.len() > 0 {
        lemma_obj_materials_cycle(records.drop_last(), ok);
        let (n, idx, mat, m) = obj_gathered(records.drop_last(), ok);
        match records.last() {
            ObjLine::Face(ws) => {
                let face = face_refs(views(ws@), n as int);
                if face.len() >= 3 {
                    lemma_face_keeps_material_cycle(idx, mat, m as u8, face);
                }
            },
            _ => {},
        }
    } else {
        assert(cycles_from_zero(Seq::<u8>::empty()));
    }
}

} // verus!
