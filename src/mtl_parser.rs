use vstd::prelude::*;

verus! {

/// Why a material library could not be read. Each variant carries the index
/// of the offending line.
#[derive(Clone, Copy, Debug, PartialEq, Eq, Structural)]
pub enum MtlError {
    /// A `newmtl` statement without a material name.
    MissingName(usize),
    /// A `map_Kd` statement without a texture path.
    MissingPath(usize),
    /// A `map_Kd` statement before any `newmtl`.
    NoMaterial(usize),
}

/// The diffuse texture path of each material of a material library.
#[derive(Clone)]
pub struct MtlData {
    pub texture_path_map: Vec<(String, String)>,
}

/// Result of reading the statements of a library so far: the map from
/// material name to texture path, and the material being defined.
pub type MtlState = (Map<Seq<char>, Seq<char>>, Option<Seq<char>>);

/// Reads statements `lines[0..]` (each a line split at whitespace) in order.
pub open spec fn mtl_state(lines: Seq<Seq<Seq<char>>>) -> Result<MtlState, MtlError>
    decreases lines.len(),
{
    if lines.len() == 0 {
        Ok((Map::empty(), None))
    } else {
        let k = lines.len() - 1;
        match mtl_state(lines.drop_last()) {
            Err(e) => Err(e),
            Ok(st) => mtl_step(st, lines.last(), k as usize),
        }
    }
}

/// One statement: `newmtl <name>` starts a material, `map_Kd <path>` sets the
/// current material's texture; anything else is ignored.
pub open spec fn mtl_step(st: MtlState, t: Seq<Seq<char>>, k: usize) -> Result<MtlState, MtlError> {
    if t.len() == 0 {
        Ok(st)
    } else if t[0] == "newmtl"@ {
        if t.len() < 2 {
            Err(MtlError::MissingName(k))
        } else {
            Ok((st.0, Some(t[1])))
        }
    } else if t[0] == "map_Kd"@ {
        if t.len() < 2 {
            Err(MtlError::MissingPath(k))
        } else {
            match st.1 {
                Some(name) => Ok((st.0.insert(name, t[1]), st.1)),
                None => Err(MtlError::NoMaterial(k)),
            }
        }
    } else {
        Ok(st)
    }
}

pub open spec fn tokens_view(lines: Seq<Vec<String>>) -> Seq<Seq<Seq<char>>> {
    lines.map_values(|l: Vec<String>| l@.map_values(|s: String| s@))
}

impl MtlData {
    /// The names in the table are distinct.
    pub open spec fn wf(&self) -> bool {
        forall|i: int, j: int|
            0 <= i < j < self.texture_path_map@.len() ==> self.texture_path_map@[i].0@
                != self.texture_path_map@[j].0@
    }

    /// The map from material name to texture path.
    pub open spec fn view(&self) -> Map<Seq<char>, Seq<char>> {
        Map::new(
            |k: Seq<char>| exists|i: int| 0 <= i < self.texture_path_map@.len() && self.texture_path_map@[i].0@ == k,
            |k: Seq<char>| {
                let i = choose|i: int| 0 <= i < self.texture_path_map@.len() && self.texture_path_map@[i].0@ == k;
                self.texture_path_map@[i].1@
            },
        )
    }

    pub fn empty() -> (m: MtlData)
        ensures
            m.wf(),
            m.view() == Map::<Seq<char>, Seq<char>>::empty(),
    {
        let m = MtlData { texture_path_map: Vec::new() };
        proof {
            assert(m.view() =~= Map::<Seq<char>, Seq<char>>::empty());
        }
        m
    }

    /// Sets the texture path of material `name`, replacing an earlier one.
    pub fn insert(&mut self, name: String, path: String)
        requires
            old(self).wf(),
        ensures
            final(self).wf(),
            final(self).view() == old(self).view().insert(name@, path@),
    {
        let ghost pre = self.texture_path_map@;
        let n = self.texture_path_map.len();
        let mut i: usize = 0;
        while i < n
            invariant
                self.texture_path_map@ == pre,
                pre == old(self).texture_path_map@,
                n == pre.len(),
                forall|a: int, b: int| 0 <= a < b < pre.len() ==> pre[a].0@ != pre[b].0@,
                0 <= i <= n,
                forall|j: int| 0 <= j < i ==> pre[j].0@ != name@,
            decreases n - i,
        {
            if self.texture_path_map[i].0 == name {
                let ghost old_view = self.view();
                self.texture_path_map.set(i, (name, path));
                proof {
                    let post = self.texture_path_map@;
                    assert forall|a: int, b: int| 0 <= a < b < post.len() implies post[a].0@ != post[b].0@ by {
                        assert(pre[i as int].0@ == post[i as int].0@);
                    }
                    assert forall|k: Seq<char>| #[trigger] self.view().dom().contains(k) == old_view.insert(
                        name@,
                        path@,
                    ).dom().contains(k) by {
                        if exists|j: int| 0 <= j < pre.len() && pre[j].0@ == k {
                            let j = choose|j: int| 0 <= j < pre.len() && pre[j].0@ == k;
                            assert(post[j].0@ == k);
                        }
                        if exists|j: int| 0 <= j < post.len() && post[j].0@ == k {
                            let j = choose|j: int| 0 <= j < post.len() && post[j].0@ == k;
                            assert(pre[j].0@ == k);
                        }
                    }
                    assert forall|k: Seq<char>| self.view().dom().contains(k) implies #[trigger] self.view()[k]
                        == old_view.insert(name@, path@)[k] by {
                        let j = choose|j: int| 0 <= j < post.len() && post[j].0@ == k;
                        if k != name@ {
                            assert(j != i);
                            let j2 = choose|j2: int| 0 <= j2 < pre.len() && pre[j2].0@ == k;
                            assert(j2 == j);
                        } else {
                            assert(j == i);
                        }
                    }
                    assert(self.view() =~= old_view.insert(name@, path@));
                }
                return;
            }
            i = i + 1;
        }
        let ghost old_view = self.view();
        self.texture_path_map.push((name, path));
        proof {
            let post = self.texture_path_map@;
            assert forall|k: Seq<char>| #[trigger] self.view().dom().contains(k) == old_view.insert(
                name@,
                path@,
            ).dom().contains(k) by {
                if exists|j: int| 0 <= j < pre.len() && pre[j].0@ == k {
                    let j = choose|j: int| 0 <= j < pre.len() && pre[j].0@ == k;
                    assert(post[j].0@ == k);
                }
                if k == name@ {
                    assert(post[n as int].0@ == k);
                }
            }
            assert forall|k: Seq<char>| self.view().dom().contains(k) implies #[trigger] self.view()[k]
                == old_view.insert(name@, path@)[k] by {
                let j = choose|j: int| 0 <= j < post.len() && post[j].0@ == k;
                if k != name@ {
                    let j2 = choose|j2: int| 0 <= j2 < pre.len() && pre[j2].0@ == k;
                    assert(j2 == j);
                } else {
                    assert(j == n);
                }
            }
            assert(self.view() =~= old_view.insert(name@, path@));
        }
    }

    /// The texture path of material `name`, if it has one.
    pub fn texture_path(&self, name: &String) -> (r: Option<String>)
        requires
            self.wf(),
        ensures
            r is Some <==> self.view().dom().contains(name@),
            r matches Some(p) ==> p@ == self.view()[name@],
    {
        let n = self.texture_path_map.len();
        let mut i: usize = 0;
        while i < n
            invariant
                self.wf(),
                n == self.texture_path_map@.len(),
                0 <= i <= n,
                forall|j: int| 0 <= j < i ==> self.texture_path_map@[j].0@ != name@,
            decreases n - i,
        {
            if self.texture_path_map[i].0 == *name {
                proof {
                    let j = choose|j: int| 0 <= j < n && self.texture_path_map@[j].0@ == name@;
                    assert(j == i);
                }
                return Some(self.texture_path_map[i].1.clone());
            }
            i = i + 1;
        }
        None
    }

    /// Reads a material library given as its lines, each split at whitespace.
    pub fn new(lines: &Vec<Vec<String>>) -> (r: Result<MtlData, MtlError>)
        ensures
            match mtl_state(tokens_view(lines@)) {
                Ok(st) => r matches Ok(m) && m.wf() && m.view() == st.0,
                Err(e) => r == Err::<MtlData, MtlError>(e),
            },
    {
        let newmtl = "newmtl".to_owned();
        let map_kd = "map_Kd".to_owned();
        let mut data = MtlData::empty();
        let mut current: Option<String> = None;
        let mut k: usize = 0;
        proof {
            assert(tokens_view(lines@).take(0) =~= Seq::<Seq<Seq<char>>>::empty());
        }
        while k < lines.len()
            invariant
                0 <= k <= lines@.len(),
                newmtl@ == "newmtl"@,
                map_kd@ == "map_Kd"@,
                data.wf(),
                mtl_state(tokens_view(lines@).take(k as int)) matches Ok(st) && st.0 == data.view() && st.1 == (
                match current {
                    Some(c) => Some(c@),
                    None => None::<Seq<char>>,
                }),
            decreases lines@.len() - k,
        {
            let ghost all = tokens_view(lines@);
            proof {
                assert(all.take(k + 1).drop_last() =~= all.take(k as int));
                assert(all.take(k + 1).last() == all[k as int]);
            }
            let t = &lines[k];
            if t.len() > 0 {
                if t[0] == newmtl {
                    if t.len() < 2 {
                        proof {
                            lemma_error_persists(all, k + 1);
                        }
                        return Err(MtlError::MissingName(k));
                    }
                    current = Some(t[1].clone());
                } else if t[0] == map_kd {
                    if t.len() < 2 {
                        proof {
                            lemma_error_persists(all, k + 1);
                        }
                        return Err(MtlError::MissingPath(k));
                    }
                    match &current {
                        Some(c) => {
                            data.insert(c.clone(), t[1].clone());
                        },
                        None => {
                            proof {
                                lemma_error_persists(all, k + 1);
                            }
                            return Err(MtlError::NoMaterial(k));
                        },
                    }
                }
            }
            k = k + 1;
        }
        proof {
            assert(tokens_view(lines@).take(lines@.len() as int) =~= tokens_view(lines@));
        }
        Ok(data)
    }
}

/// Once a statement is in error, reading more statements keeps that error.
pub proof fn lemma_error_persists(lines: Seq<Seq<Seq<char>>>, k: int)
    requires
        0 <= k <= lines.len(),
        mtl_state(lines.take(k)) is Err,
    ensures
        mtl_state(lines) == mtl_state(lines.take(k)),
    decreases lines.len() - k,
{
    if k < lines.len() {
        assert(lines.take(k + 1).drop_last() =~= lines.take(k));
        lemma_error_persists(lines, k + 1);
    } else {
        assert(lines.take(k) =~= lines);
    }
}

} // verus!
