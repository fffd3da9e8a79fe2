//! The scripting dialect's pre-processing: its directives become plain
//! function calls before a script host runs the text.

use vstd::prelude::*;

verus! {

/// The script with every `@ai` directive rewritten to the host
/// function's name.
pub open spec fn sp_preprocess(s: Seq<char>) -> Seq<char>
    decreases s.len(),
{
    if s.len() < 3 {
        s
    } else if s.subrange(0, 3) == "@ai"@ {
        "__aether_ask"@ + sp_preprocess(s.subrange(3, s.len() as int))
    } else {
        seq![s[0]] + sp_preprocess(s.drop_first())
    }
}

/// Pre-processor for script sources.
pub struct AetherScript;

impl AetherScript {
    /// Rewrite the `@ai` directive to the host function call the
    /// script engine registers.
    pub fn preprocess(script: &str) -> (r: String)
        ensures
            r@ == sp_preprocess(script@),
    {
        let cs = crate::text::to_chars(script);
        let n: usize = cs.len();
        let mut out: Vec<char> = Vec::new();
        let mut i: usize = 0;
        proof {
            reveal_strlit("@ai");
            assert(script@.subrange(0, n as int) =~= script@);
        }
        while i < n
            invariant
                i <= n,
                n == script@.len(),
                cs@ == script@,
                out@ + sp_preprocess(script@.subrange(i as int, n as int)) == sp_preprocess(
                    script@,
                ),
            decreases n - i,
        {
            let ghost suf = script@.subrange(i as int, n as int);
            proof {
                reveal_strlit("@ai");
                assert(suf.drop_first() =~= script@.subrange(i + 1, n as int));
                if i + 3 <= n {
                    assert(suf.subrange(3, suf.len() as int) =~= script@.subrange(i + 3, n as int));
                    assert(forall|u: int| 0 <= u < 3 ==> suf.subrange(0, 3)[u] == script@[i + u]);
                }
            }
            let is_dir: bool = n - i >= 3 && cs[i] == '@' && cs[i + 1] == 'a' && cs[i + 2] == 'i';
            proof {
                if i + 3 <= n {
                    if is_dir {
                        assert(suf.subrange(0, 3) =~= "@ai"@);
                    } else {
                        assert(suf.subrange(0, 3) != "@ai"@) by {
                            if suf.subrange(0, 3) == "@ai"@ {
                                assert forall|u: int| 0 <= u < 3 implies script@[i + u]
                                    == "@ai"@[u] by {
                                    assert(suf.subrange(0, 3)[u] == script@[i + u]);
                                }
                                assert(script@[i as int] == "@ai"@[0]);
                                assert(script@[i + 1] == "@ai"@[1]);
                                assert(script@[i + 2] == "@ai"@[2]);
                                assert(cs@[i as int] == '@' && cs@[i + 1] == 'a' && cs@[i + 2]
                                    == 'i');
                            }
                        }
                    }
                }
            }
            if is_dir {
                crate::text::append_str_chars(&mut out, "__aether_ask");
                i = i + 3;
            } else {
                out.push(cs[i]);
                i = i + 1;
            }
            proof {
                assert(out@ + sp_preprocess(script@.subrange(i as int, n as int))
                    =~= sp_preprocess(script@));
            }
        }
        proof {
            assert(script@.subrange(n as int, n as int) =~= Seq::<char>::empty());
            assert(out@ =~= sp_preprocess(script@));
        }
        crate::text::from_chars(&out)
    }
}

} // verus!
