use vstd::prelude::*;

verus! {

/// The render pipelines whose shaders are reloaded when their files
/// change.
#[derive(Debug, Clone, Copy, PartialEq, Eq, Structural)]
pub enum Pipeline {
    PostUi,
    PostFxaa,
    Heightmap,
    CubeInstanced,
    Arrow,
    HealthBar,
    UnitIcon,
    Explosion,
    Line,
    Water,
}

/// The pipelines in the order they are reloaded.
pub open spec fn all_pipelines() -> Seq<Pipeline> {
    seq![
        Pipeline::PostUi,
        Pipeline::PostFxaa,
        Pipeline::Heightmap,
        Pipeline::CubeInstanced,
        Pipeline::Arrow,
        Pipeline::HealthBar,
        Pipeline::UnitIcon,
        Pipeline::Explosion,
        Pipeline::Line,
        Pipeline::Water,
    ]
}

/// Position of `p` in `all_pipelines()`.
pub open spec fn pipeline_rank(p: Pipeline) -> int {
    match p {
        Pipeline::PostUi => 0,
        Pipeline::PostFxaa => 1,
        Pipeline::Heightmap => 2,
        Pipeline::CubeInstanced => 3,
        Pipeline::Arrow => 4,
        Pipeline::HealthBar => 5,
        Pipeline::UnitIcon => 6,
        Pipeline::Explosion => 7,
        Pipeline::Line => 8,
        Pipeline::Water => 9,
    }
}

/// The two shader files of `p`: its fragment shader, then its vertex
/// shader (the two post-processing pipelines share `post.vert`).
pub open spec fn shader_files(p: Pipeline) -> (Seq<char>, Seq<char>) {
    match p {
        Pipeline::PostUi => ("post_ui.frag"@, "post.vert"@),
        Pipeline::PostFxaa => ("post_fxaa.frag"@, "post.vert"@),
        Pipeline::Heightmap => ("heightmap.frag"@, "heightmap.vert"@),
        Pipeline::CubeInstanced => ("cube_instanced.frag"@, "cube_instanced.vert"@),
        Pipeline::Arrow => ("arrow.frag"@, "arrow.vert"@),
        Pipeline::HealthBar => ("health_bar.frag"@, "health_bar.vert"@),
        Pipeline::UnitIcon => ("unit_icon.frag"@, "unit_icon.vert"@),
        Pipeline::Explosion => ("explosion.frag"@, "explosion.vert"@),
        Pipeline::Line => ("line.frag"@, "line.vert"@),
        Pipeline::Water => ("water.frag"@, "water.vert"@),
    }
}

/// A change to the file named `name` reloads `p`.
pub open spec fn reloaded_by(name: Seq<char>, p: Pipeline) -> bool {
    name == shader_files(p).0 || name == shader_files(p).1
}

/// Some file named in `names` reloads `p`.
pub open spec fn touched(names: Seq<String>, p: Pipeline) -> bool {
    exists|i: int| 0 <= i < names.len() && reloaded_by(#[trigger] names[i]@, p)
}

/// `s` ends with `suffix`.
pub open spec fn ends_with(s: Seq<char>, suffix: Seq<char>) -> bool {
    s.len() >= suffix.len() && s.subrange(s.len() - suffix.len(), s.len() as int) == suffix
}

/// `s` with its last five characters (a `.frag` or `.vert` extension)
/// taken off.
pub open spec fn file_stem(s: Seq<char>) -> Seq<char> {
    s.take(s.len() - 5)
}

/// Every pipeline is reloaded by two distinct files: a fragment shader
/// named `<name>.frag` and a vertex shader named `<name>.vert`. Apart
/// from the two post-processing pipelines, which share `post.vert`, both
/// files of a pipeline carry the same name.
pub proof fn law_shader_files_of_pipeline(p: Pipeline)
    ensures
        ends_with(shader_files(p).0, ".frag"@),
        ends_with(shader_files(p).1, ".vert"@),
        shader_files(p).0 != shader_files(p).1,
        p != Pipeline::PostUi && p != Pipeline::PostFxaa ==> file_stem(shader_files(p).0)
            == file_stem(shader_files(p).1),
        p == Pipeline::PostUi || p == Pipeline::PostFxaa ==> shader_files(p).1 == "post.vert"@,
{
    reveal_strlit(".frag");
    reveal_strlit(".vert");
    reveal_strlit("post_ui.frag");
    reveal_strlit("post_fxaa.frag");
    reveal_strlit("post.vert");
    reveal_strlit("heightmap.frag");
    reveal_strlit("heightmap.vert");
    reveal_strlit("cube_instanced.frag");
    reveal_strlit("cube_instanced.vert");
    reveal_strlit("arrow.frag");
    reveal_strlit("arrow.vert");
    reveal_strlit("health_bar.frag");
    reveal_strlit("health_bar.vert");
    reveal_strlit("unit_icon.frag");
    reveal_strlit("unit_icon.vert");
    reveal_strlit("explosion.frag");
    reveal_strlit("explosion.vert");
    reveal_strlit("line.frag");
    reveal_strlit("line.vert");
    reveal_strlit("water.frag");
    reveal_strlit("water.vert");
    let (f, v) = shader_files(p);
    assert(f.subrange(f.len() - 5, f.len() as int) =~= ".frag"@);
    assert(v.subrange(v.len() - 5, v.len() as int) =~= ".vert"@);
    assert(f[f.len() - 1] != v[v.len() - 1]);
    if p != Pipeline::PostUi && p != Pipeline::PostFxaa {
        assert(file_stem(f) =~= file_stem(v));
    }
}

fn pipelines_in_order() -> (r: Vec<Pipeline>)
    ensures
        r@ == all_pipelines(),
{
    let r = vec![
        Pipeline::PostUi,
        Pipeline::PostFxaa,
        Pipeline::Heightmap,
        Pipeline::CubeInstanced,
        Pipeline::Arrow,
        Pipeline::HealthBar,
        Pipeline::UnitIcon,
        Pipeline::Explosion,
        Pipeline::Line,
        Pipeline::Water,
    ];
    assert(r@ =~= all_pipelines());
    r
}

fn files_of(p: Pipeline) -> (r: (String, String))
    ensures
        r.0@ == shader_files(p).0,
        r.1@ == shader_files(p).1,
{
    match p {
        Pipeline::PostUi => ("post_ui.frag".to_owned(), "post.vert".to_owned()),
        Pipeline::PostFxaa => ("post_fxaa.frag".to_owned(), "post.vert".to_owned()),
        Pipeline::Heightmap => ("heightmap.frag".to_owned(), "heightmap.vert".to_owned()),
        Pipeline::CubeInstanced => ("cube_instanced.frag".to_owned(), "cube_instanced.vert".to_owned()),
        Pipeline::Arrow => ("arrow.frag".to_owned(), "arrow.vert".to_owned()),
        Pipeline::HealthBar => ("health_bar.frag".to_owned(), "health_bar.vert".to_owned()),
        Pipeline::UnitIcon => ("unit_icon.frag".to_owned(), "unit_icon.vert".to_owned()),
        Pipeline::Explosion => ("explosion.frag".to_owned(), "explosion.vert".to_owned()),
        Pipeline::Line => ("line.frag".to_owned(), "line.vert".to_owned()),
        Pipeline::Water => ("water.frag".to_owned(), "water.vert".to_owned()),
    }
}

/// Whether some file named in `file_names` reloads `p`.
fn is_touched(file_names: &Vec<String>, p: Pipeline) -> (r: bool)
    ensures
        r == touched(file_names@, p),
{
    let (frag, vert) = files_of(p);
    let mut i: usize = 0;
    while i < file_names.len()
        invariant
            0 <= i <= file_names@.len(),
            frag@ == shader_files(p).0,
            vert@ == shader_files(p).1,
            forall|j: int| 0 <= j < i ==> !reloaded_by(#[trigger] file_names@[j]@, p),
        decreases file_names@.len() - i,
    {
        if file_names[i] == frag || file_names[i] == vert {
            assert(reloaded_by(file_names@[i as int]@, p));
            return true;
        }
        i = i + 1;
    }
    false
}

/// The pipelines to reload after the files named `file_names` changed,
/// each once, in reload order.
pub fn pipelines_to_reload(file_names: &Vec<String>) -> (r: Vec<Pipeline>)
    ensures
        forall|p: Pipeline| r@.contains(p) <==> touched(file_names@, p),
        r@.no_duplicates(),
        forall|a: int, b: int| 0 <= a < b < r@.len() ==> pipeline_rank(r@[a]) < pipeline_rank(r@[b]),
{
    let all = pipelines_in_order();
    let mut r: Vec<Pipeline> = Vec::new();
    let mut k: usize = 0;
    while k < all.len()
        invariant
            all@ == all_pipelines(),
            0 <= k <= all@.len(),
            forall|p: Pipeline| r@.contains(p) <==> (pipeline_rank(p) < k && touched(file_names@, p)),
            forall|a: int, b: int| 0 <= a < b < r@.len() ==> pipeline_rank(r@[a]) < pipeline_rank(r@[b]),
            forall|a: int| 0 <= a < r@.len() ==> pipeline_rank(#[trigger] r@[a]) < k,
        decreases all@.len() - k,
    {
        let p = all[k];
        assert(pipeline_rank(p) == k);
        if is_touched(file_names, p) {
            let ghost before = r@;
            r.push(p);
            proof {
                assert forall|q: Pipeline| r@.contains(q) <==> (pipeline_rank(q) < k + 1 && touched(file_names@, q)) by {
                    if r@.contains(q) {
                        let j = choose|j: int| 0 <= j < r@.len() && r@[j] == q;
                        if j < before.len() {
                            assert(before.contains(q));
                        }
                    }
                    if pipeline_rank(q) < k + 1 && touched(file_names@, q) {
                        if pipeline_rank(q) == k {
                            assert(q == p);
                            assert(r@[before.len() as int] == q);
                        } else {
                            assert(before.contains(q));
                            let j = choose|j: int| 0 <= j < before.len() && before[j] == q;
                            assert(r@[j] == q);
                        }
                    }
                }
            }
        } else {
            proof {
                assert forall|q: Pipeline| r@.contains(q) <==> (pipeline_rank(q) < k + 1 && touched(file_names@, q)) by {
                    if pipeline_rank(q) == k {
                        assert(q == p);
                    }
                }
            }
        }
        k = k + 1;
    }
    proof {
        assert forall|a: int, b: int| 0 <= a < r@.len() && 0 <= b < r@.len() && a != b implies r@[a] != r@[b] by {
            if a < b {
                assert(pipeline_rank(r@[a]) < pipeline_rank(r@[b]));
            } else {
                assert(pipeline_rank(r@[b]) < pipeline_rank(r@[a]));
            }
        }
        assert forall|p: Pipeline| r@.contains(p) <==> touched(file_names@, p) by {
            assert(pipeline_rank(p) < 10);
        }
    }
    r
}

} // verus!
