//! The legacy voxel grid importer: an older bracketed text format of
//! `[Layer N]` rows followed by a `[Colors] sym: color` block, parsed
//! directly into a voxel list without the language front end. Layers take
//! consecutive depths in order of appearance.

use vstd::prelude::*;

use crate::colors::{default_colors, default_colors_spec};
use crate::strutil::{chars_of, str_eq, string_from_chars};
use crate::types::{map_of_pairs, Voxel, VoxelScene, VoxelV, voxels_view};

verus! {

/// Whether a character counts as surrounding whitespace here.
pub open spec fn is_ws(c: char) -> bool {
    c == ' ' || c == '\t' || c == '\r' || c == '\n'
}

/// A string without its leading whitespace.
pub open spec fn trim_start_spec(s: Seq<char>) -> Seq<char>
    decreases s.len(),
{
    if s.len() > 0 && is_ws(s[0]) {
        trim_start_spec(s.drop_first())
    } else {
        s
    }
}

/// A string without its trailing whitespace.
pub open spec fn trim_end_spec(s: Seq<char>) -> Seq<char>
    decreases s.len(),
{
    if s.len() > 0 && is_ws(s.last()) {
        trim_end_spec(s.drop_last())
    } else {
        s
    }
}

/// A string without surrounding whitespace.
pub open spec fn trim_spec(s: Seq<char>) -> Seq<char> {
    trim_end_spec(trim_start_spec(s))
}

/// Remove surrounding whitespace.
fn trim(s: &String) -> (r: String)
    ensures
        r@ == trim_spec(s@),
{
    let cs = chars_of(s.as_str());
    let n = cs.len();
    let mut a: usize = 0;
    proof {
        assert(s@.subrange(0, n as int) =~= s@);
    }
    while a < n && (cs[a] == ' ' || cs[a] == '\t' || cs[a] == '\r' || cs[a] == '\n')
        invariant
            a <= n,
            n == cs@.len(),
            cs@ == s@,
            trim_start_spec(s@) == trim_start_spec(s@.subrange(a as int, n as int)),
        decreases n - a,
    {
        proof {
            let cur = s@.subrange(a as int, n as int);
            assert(cur.drop_first() =~= s@.subrange(a + 1, n as int));
        }
        a = a + 1;
    }
    proof {
        let cur = s@.subrange(a as int, n as int);
        if a < n {
            assert(!is_ws(cur[0]));
        }
        assert(trim_start_spec(cur) == cur);
    }
    let mut b: usize = n;
    while b > a && (cs[b - 1] == ' ' || cs[b - 1] == '\t' || cs[b - 1] == '\r' || cs[b - 1]
        == '\n')
        invariant
            a <= b <= n,
            n == cs@.len(),
            cs@ == s@,
            trim_start_spec(s@) == s@.subrange(a as int, n as int),
            trim_end_spec(s@.subrange(a as int, n as int)) == trim_end_spec(
                s@.subrange(a as int, b as int),
            ),
        decreases b,
    {
        proof {
            let cur = s@.subrange(a as int, b as int);
            assert(cur.drop_last() =~= s@.subrange(a as int, b - 1));
            assert(is_ws(cur.last()));
        }
        b = b - 1;
    }
    proof {
        let cur = s@.subrange(a as int, b as int);
        if b > a {
            assert(!is_ws(cur.last()));
        }
        assert(trim_end_spec(cur) == cur);
    }
    let mut out: Vec<char> = Vec::new();
    let mut k: usize = a;
    while k < b
        invariant
            a <= k <= b <= n,
            n == cs@.len(),
            cs@ == s@,
            out@ == s@.subrange(a as int, k as int),
        decreases b - k,
    {
        let c = cs[k];
        out.push(c);
        proof {
            assert(out@ =~= s@.subrange(a as int, k + 1));
        }
        k = k + 1;
    }
    string_from_chars(&out)
}

/// The lines of a text: the segments between newline characters, with a
/// final segment after the last newline.
pub open spec fn lines_rec(s: Seq<char>, i: int, cur: Seq<char>, acc: Seq<Seq<char>>) -> Seq<
    Seq<char>,
>
    decreases s.len() - i,
{
    if i < 0 || i >= s.len() {
        acc.push(cur)
    } else if s[i] == '\n' {
        lines_rec(s, i + 1, Seq::empty(), acc.push(cur))
    } else {
        lines_rec(s, i + 1, cur.push(s[i]), acc)
    }
}

/// The lines of a text.
pub open spec fn lines_spec(s: Seq<char>) -> Seq<Seq<char>> {
    lines_rec(s, 0, Seq::empty(), Seq::empty())
}

/// Split a text into its lines.
#[verifier::loop_isolation(false)]
fn split_lines(contents: &str) -> (r: Vec<String>)
    ensures
        crate::ast::strings_view(r@) == lines_spec(contents@),
{
    let cs = chars_of(contents);
    let n = cs.len();
    let mut acc: Vec<String> = Vec::new();
    let mut cur: Vec<char> = Vec::new();
    proof {
        assert(crate::ast::strings_view(acc@) =~= Seq::<Seq<char>>::empty());
        assert(cur@ =~= Seq::<char>::empty());
    }
    let mut i: usize = 0;
    while i < n
        invariant
            i <= n,
            n == cs@.len(),
            cs@ == contents@,
            lines_spec(contents@) == lines_rec(
                contents@,
                i as int,
                cur@,
                crate::ast::strings_view(acc@),
            ),
        decreases n - i,
    {
        let c = cs[i];
        if c == '\n' {
            let line = string_from_chars(&cur);
            let ghost pre = acc@;
            acc.push(line);
            cur.clear();
            proof {
                crate::ast::lemma_strings_view_push(pre, acc@.last());
                assert(cur@ =~= Seq::<char>::empty());
            }
        } else {
            cur.push(c);
        }
        i = i + 1;
    }
    let line = string_from_chars(&cur);
    let ghost pre = acc@;
    acc.push(line);
    proof {
        crate::ast::lemma_strings_view_push(pre, acc@.last());
    }
    acc
}

/// The first position of a colon, if any.
pub open spec fn colon_at(s: Seq<char>, i: int) -> Option<int>
    decreases s.len() - i,
{
    if i < 0 || i >= s.len() {
        None
    } else if s[i] == ':' {
        Some(i)
    } else {
        colon_at(s, i + 1)
    }
}

/// What one `sym: color` line contributes: the trimmed text left of the
/// first colon maps to the trimmed text right of it.
pub open spec fn color_entry(line: Seq<char>) -> Option<(Seq<char>, Seq<char>)> {
    match colon_at(line, 0) {
        Some(i) => Some(
            (trim_spec(line.subrange(0, i)), trim_spec(line.subrange(i + 1, line.len() as int))),
        ),
        None => None,
    }
}

/// Split a line at its first colon and trim both halves.
#[verifier::loop_isolation(false)]
fn split_color_entry(line: &String) -> (r: Option<(String, String)>)
    ensures
        match (r, color_entry(line@)) {
            (Some(p), Some(q)) => p.0@ == q.0 && p.1@ == q.1,
            (None, None) => true,
            _ => false,
        },
{
    let cs = chars_of(line.as_str());
    let n = cs.len();
    let mut i: usize = 0;
    while i < n
        invariant
            i <= n,
            n == cs@.len(),
            cs@ == line@,
            colon_at(line@, 0) == colon_at(line@, i as int),
        decreases n - i,
    {
        if cs[i] == ':' {
            let mut left: Vec<char> = Vec::new();
            let mut k: usize = 0;
            while k < i
                invariant
                    k <= i < n,
                    n == cs@.len(),
                    cs@ == line@,
                    left@ == line@.subrange(0, k as int),
                decreases i - k,
            {
                let c = cs[k];
                left.push(c);
                proof {
                    assert(left@ =~= line@.subrange(0, k + 1));
                }
                k = k + 1;
            }
            let mut right: Vec<char> = Vec::new();
            let mut j: usize = i + 1;
            while j < n
                invariant
                    i < j <= n || j == i + 1,
                    n == cs@.len(),
                    cs@ == line@,
                    right@ == line@.subrange(i + 1, j as int),
                decreases n - j,
            {
                let c = cs[j];
                right.push(c);
                proof {
                    assert(right@ =~= line@.subrange(i + 1, j + 1));
                }
                j = j + 1;
            }
            let ls = string_from_chars(&left);
            let rs = string_from_chars(&right);
            let lt = trim(&ls);
            let rt = trim(&rs);
            return Some((lt, rt));
        }
        i = i + 1;
    }
    None
}

/// Whether a trimmed line opens a layer block.
pub open spec fn is_layer_line(t: Seq<char>) -> bool {
    t.len() >= 6 && t.subrange(0, 6) == "[Layer"@
}

/// Whether a trimmed line opens the colors block.
pub open spec fn is_colors_line(t: Seq<char>) -> bool {
    t.len() >= 8 && t.subrange(0, 8) == "[Colors]"@
}

fn starts_with(s: &String, prefix: &str) -> (r: bool)
    ensures
        r == (s@.len() >= prefix@.len() && s@.subrange(0, prefix@.len() as int) == prefix@),
{
    let cs = chars_of(s.as_str());
    let ps = chars_of(prefix);
    if cs.len() < ps.len() {
        return false;
    }
    let m = ps.len();
    let mut k: usize = 0;
    while k < m
        invariant
            k <= m,
            m == ps@.len(),
            m <= cs@.len(),
            cs@ == s@,
            ps@ == prefix@,
            forall|j: int| 0 <= j < k ==> s@[j] == prefix@[j],
        decreases m - k,
    {
        if cs[k] != ps[k] {
            proof {
                assert(s@.subrange(0, m as int)[k as int] != prefix@[k as int]);
            }
            return false;
        }
        k = k + 1;
    }
    proof {
        assert(s@.subrange(0, m as int) =~= prefix@);
    }
    true
}

/// The grid state after reading the lines from `i` on: the color map, the
/// finished layers, the rows of the still-open layer, and whether the
/// colors block has begun. Empty lines are skipped; a layer header closes
/// the open layer; the colors header closes it and switches to color
/// entries; any other line is a row of the open layer.
pub open spec fn grid_fold(
    lines: Seq<Seq<char>>,
    i: int,
    colors: Map<Seq<char>, Seq<char>>,
    layers: Seq<Seq<Seq<char>>>,
    cur: Seq<Seq<char>>,
    in_colors: bool,
) -> (Map<Seq<char>, Seq<char>>, Seq<Seq<Seq<char>>>)
    decreases lines.len() - i,
{
    if i < 0 || i >= lines.len() {
        (
            colors,
            if cur.len() > 0 {
                layers.push(cur)
            } else {
                layers
            },
        )
    } else {
        let t = trim_spec(lines[i]);
        if t.len() == 0 {
            grid_fold(lines, i + 1, colors, layers, cur, in_colors)
        } else if is_layer_line(t) {
            let layers2 = if cur.len() > 0 {
                layers.push(cur)
            } else {
                layers
            };
            grid_fold(lines, i + 1, colors, layers2, Seq::empty(), false)
        } else if is_colors_line(t) {
            let layers2 = if cur.len() > 0 {
                layers.push(cur)
            } else {
                layers
            };
            grid_fold(lines, i + 1, colors, layers2, Seq::empty(), true)
        } else if in_colors {
            match color_entry(t) {
                Some(p) => grid_fold(lines, i + 1, colors.insert(p.0, p.1), layers, cur, in_colors),
                None => grid_fold(lines, i + 1, colors, layers, cur, in_colors),
            }
        } else {
            grid_fold(lines, i + 1, colors, layers, cur.push(t), in_colors)
        }
    }
}

/// One grid row expanded: every character except `.` and the space resolves
/// through the color map, then the built-in names, else a diagnostic
/// default; the result resolves once more through the built-in names.
pub open spec fn grid_row_spec(
    z: int,
    y: int,
    row: Seq<char>,
    x: int,
    colors: Map<Seq<char>, Seq<char>>,
    acc: Seq<VoxelV>,
) -> Seq<VoxelV>
    decreases row.len() - x,
{
    if x < 0 || x >= row.len() {
        acc
    } else {
        let c = row[x];
        if c == '.' || c == ' ' {
            grid_row_spec(z, y, row, x + 1, colors, acc)
        } else {
            let key = seq![c];
            let raw = if colors.contains_key(key) {
                colors[key]
            } else if default_colors_spec().contains_key(key) {
                default_colors_spec()[key]
            } else {
                "#888888"@
            };
            let hex = if default_colors_spec().contains_key(raw) {
                default_colors_spec()[raw]
            } else {
                raw
            };
            let acc2 = if 0 <= x <= i32::MAX && 0 <= y <= i32::MAX && 0 <= z <= i32::MAX {
                acc.push(VoxelV { x: x as i32, y: y as i32, z: z as i32, color: hex })
            } else {
                acc
            };
            grid_row_spec(z, y, row, x + 1, colors, acc2)
        }
    }
}

/// The rows of one grid layer expanded in order.
pub open spec fn grid_rows_spec(
    z: int,
    rows: Seq<Seq<char>>,
    y: int,
    colors: Map<Seq<char>, Seq<char>>,
    acc: Seq<VoxelV>,
) -> Seq<VoxelV>
    decreases rows.len() - y,
{
    if y < 0 || y >= rows.len() {
        acc
    } else {
        let acc2 = grid_row_spec(z, y, rows[y], 0, colors, acc);
        grid_rows_spec(z, rows, y + 1, colors, acc2)
    }
}

/// Every grid layer expanded, depth by order of appearance.
pub open spec fn grid_layers_spec(
    layers: Seq<Seq<Seq<char>>>,
    z: int,
    colors: Map<Seq<char>, Seq<char>>,
    acc: Seq<VoxelV>,
) -> Seq<VoxelV>
    decreases layers.len() - z,
{
    if z < 0 || z >= layers.len() {
        acc
    } else {
        let acc2 = grid_rows_spec(z, layers[z], 0, colors, acc);
        grid_layers_spec(layers, z + 1, colors, acc2)
    }
}

/// What parsing a whole grid text means: fold the lines into a color map
/// and layers, then expand every layer.
pub open spec fn parse_voxgrid_spec(s: Seq<char>) -> Seq<VoxelV> {
    let (colors, layers) = grid_fold(
        lines_spec(s),
        0,
        Map::empty(),
        Seq::empty(),
        Seq::empty(),
        false,
    );
    grid_layers_spec(layers, 0, colors, Seq::empty())
}

/// Parse the legacy bracketed grid format into a voxel scene, as
/// `parse_voxgrid_spec` describes.
#[verifier::loop_isolation(false)]
#[verifier::rlimit(100)]
pub fn parse_voxgrid(contents: &str) -> (r: VoxelScene)
    ensures
        r@ == parse_voxgrid_spec(contents@),
{
    let lines = split_lines(contents);
    let ghost lv = lines_spec(contents@);
    let mut colors = crate::colors::StrMap::new();
    let mut layers: Vec<Vec<String>> = Vec::new();
    let mut cur: Vec<String> = Vec::new();
    let mut in_colors = false;
    proof {
        assert(rows_list_view(layers@) =~= Seq::<Seq<Seq<char>>>::empty());
        assert(crate::ast::strings_view(cur@) =~= Seq::<Seq<char>>::empty());
    }
    let mut i: usize = 0;
    while i < lines.len()
        invariant
            i <= lines@.len(),
            crate::ast::strings_view(lines@) == lv,
            lv.len() == lines@.len(),
            grid_fold(lv, 0, Map::empty(), Seq::empty(), Seq::empty(), false) == grid_fold(
                lv,
                i as int,
                colors@,
                rows_list_view(layers@),
                crate::ast::strings_view(cur@),
                in_colors,
            ),
        decreases lines@.len() - i,
    {
        proof {
            assert(lv[i as int] == lines@[i as int]@);
        }
        let t = trim(&lines[i]);
        if t.unicode_len() == 0 {
            proof {
                assert(t@.len() == 0);
            }
        } else if starts_with(&t, "[Layer") {
            proof {
                reveal_strlit("[Layer");
                assert(is_layer_line(t@));
            }
            if cur.len() > 0 {
                let ghost pre = layers@;
                layers.push(cur);
                proof {
                    lemma_rows_list_view_push(pre, layers@.last());
                }
                cur = Vec::new();
            }
            proof {
                assert(crate::ast::strings_view(cur@) =~= Seq::<Seq<char>>::empty());
            }
            in_colors = false;
        } else if starts_with(&t, "[Colors]") {
            proof {
                reveal_strlit("[Colors]");
                reveal_strlit("[Layer");
                assert(is_colors_line(t@));
                assert(!is_layer_line(t@));
            }
            if cur.len() > 0 {
                let ghost pre = layers@;
                layers.push(cur);
                proof {
                    lemma_rows_list_view_push(pre, layers@.last());
                }
                cur = Vec::new();
            }
            proof {
                assert(crate::ast::strings_view(cur@) =~= Seq::<Seq<char>>::empty());
            }
            in_colors = true;
        } else if in_colors {
            match split_color_entry(&t) {
                Some((k, v)) => {
                    colors.insert(k, v);
                },
                None => {},
            }
        } else {
            let ghost pre = cur@;
            cur.push(t);
            proof {
                crate::ast::lemma_strings_view_push(pre, cur@.last());
            }
        }
        i = i + 1;
    }
    let ghost folded = grid_fold(lv, 0, Map::empty(), Seq::empty(), Seq::empty(), false);
    if cur.len() > 0 {
        let ghost pre = layers@;
        layers.push(cur);
        proof {
            lemma_rows_list_view_push(pre, layers@.last());
        }
    }
    proof {
        assert(folded == (colors@, rows_list_view(layers@)));
    }
    let builtins = default_colors();
    let mut voxels: Vec<Voxel> = Vec::new();
    proof {
        assert(voxels_view(voxels@) =~= Seq::<VoxelV>::empty());
    }
    let ghost lls = rows_list_view(layers@);
    let mut z: usize = 0;
    while z < layers.len()
        invariant
            z <= layers@.len(),
            lls == rows_list_view(layers@),
            lls.len() == layers@.len(),
            builtins@ == default_colors_spec(),
            grid_layers_spec(lls, 0, colors@, Seq::empty()) == grid_layers_spec(
                lls,
                z as int,
                colors@,
                voxels_view(voxels@),
            ),
        decreases layers@.len() - z,
    {
        let rows = &layers[z];
        proof {
            assert(lls[z as int] == crate::ast::strings_view(layers@[z as int]@));
        }
        let mut y: usize = 0;
        while y < rows.len()
            invariant
                y <= rows@.len(),
                z < layers@.len(),
                lls == rows_list_view(layers@),
                rows@ == layers@[z as int]@,
                builtins@ == default_colors_spec(),
                grid_layers_spec(lls, 0, colors@, Seq::empty()) == grid_layers_spec(
                    lls,
                    z + 1,
                    colors@,
                    grid_rows_spec(
                        z as int,
                        crate::ast::strings_view(rows@),
                        y as int,
                        colors@,
                        voxels_view(voxels@),
                    ),
                ),
            decreases rows@.len() - y,
        {
            let row_chars = chars_of(rows[y].as_str());
            let ghost row = crate::ast::strings_view(rows@)[y as int];
            proof {
                assert(row == rows@[y as int]@);
                assert(row_chars@ == row);
            }
            let mut x: usize = 0;
            while x < row_chars.len()
                invariant
                    x <= row_chars@.len(),
                    row_chars@ == row,
                    y < rows@.len(),
                    z < layers@.len(),
                    lls == rows_list_view(layers@),
                    rows@ == layers@[z as int]@,
                    builtins@ == default_colors_spec(),
                    grid_layers_spec(lls, 0, colors@, Seq::empty()) == grid_layers_spec(
                        lls,
                        z + 1,
                        colors@,
                        grid_rows_spec(
                            z as int,
                            crate::ast::strings_view(rows@),
                            y + 1,
                            colors@,
                            grid_row_spec(
                                z as int,
                                y as int,
                                row,
                                x as int,
                                colors@,
                                voxels_view(voxels@),
                            ),
                        ),
                    ),
                decreases row_chars@.len() - x,
            {
                let c = row_chars[x];
                if c == '.' || c == ' ' {
                    x = x + 1;
                    continue ;
                }
                let mut g: Vec<char> = Vec::new();
                g.push(c);
                proof {
                    assert(g@ =~= seq![c]);
                }
                let key = string_from_chars(&g);
                let raw: String = match colors.get(key.as_str()) {
                    Some(v) => v.clone(),
                    None => match builtins.get(key.as_str()) {
                        Some(v) => v.clone(),
                        None => "#888888".to_owned(),
                    },
                };
                let hex: String = match builtins.get(raw.as_str()) {
                    Some(v) => v.clone(),
                    None => raw,
                };
                if x <= 0x7fff_ffffusize && y <= 0x7fff_ffffusize && z <= 0x7fff_ffffusize {
                    let w = Voxel { x: x as i32, y: y as i32, z: z as i32, color: hex };
                    let ghost pre = voxels@;
                    voxels.push(w);
                    proof {
                        crate::types::lemma_voxels_view_push(pre, voxels@.last());
                    }
                }
                x = x + 1;
            }
            y = y + 1;
        }
        proof {
            assert(crate::ast::strings_view(rows@).len() == rows@.len());
        }
        z = z + 1;
    }
    VoxelScene { voxels }
}

/// The views of a list of row lists.
pub open spec fn rows_list_view(s: Seq<Vec<String>>) -> Seq<Seq<Seq<char>>> {
    s.map_values(|rows: Vec<String>| crate::ast::strings_view(rows@))
}

pub broadcast proof fn lemma_rows_list_view_push(s: Seq<Vec<String>>, rows: Vec<String>)
    ensures
        #[trigger] rows_list_view(s.push(rows)) == rows_list_view(s).push(
            crate::ast::strings_view(rows@),
        ),
{
    assert(rows_list_view(s.push(rows)) =~~= rows_list_view(s).push(
        crate::ast::strings_view(rows@),
    ));
}

} // verus!
