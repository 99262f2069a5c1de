//! Grouping a token sequence into raw blocks: each block-type keyword opens a
//! block with its optional qualifier and name, and each field line inside a
//! brace pair is attached to the block the brace opened.
//!
//! This is the untyped sibling of the collection parser: it keeps every block
//! as it stands in the source, without dispatching on block kinds and without
//! rejecting anything; unrecognized tokens are skipped.

use vstd::prelude::*;

use crate::token::Token;
use crate::token::TokenView;

verus! {

/// Spec-level shadow of a block field.
pub struct BlockFieldView {
    pub identifier: Seq<char>,
    pub enabled: bool,
    pub value: Seq<char>,
}

/// One field line of a block: its name, its enabled flag, and its value.
#[derive(Debug)]
pub struct BlockField {
    identifier: String,
    enabled: bool,
    value: String,
}

impl View for BlockField {
    type V = BlockFieldView;

    closed spec fn view(&self) -> BlockFieldView {
        BlockFieldView {
            identifier: self.identifier@,
            enabled: self.enabled,
            value: self.value@,
        }
    }
}

impl BlockField {
    /// A field from its parts.
    pub fn new(identifier: String, enabled: bool, value: String) -> (r: BlockField)
        ensures
            r@.identifier == identifier@,
            r@.enabled == enabled,
            r@.value == value@,
    {
        BlockField { identifier, enabled, value }
    }

    /// The field's name.
    pub fn identifier(&self) -> (r: &String)
        ensures
            r@ == self@.identifier,
    {
        &self.identifier
    }

    /// Whether the field is enabled.
    pub fn enabled(&self) -> (r: bool)
        ensures
            r == self@.enabled,
    {
        self.enabled
    }

    /// The field's value.
    pub fn value(&self) -> (r: &String)
        ensures
            r@ == self@.value,
    {
        &self.value
    }
}

/// Spec-level shadow of a block.
#[verifier::ext_equal]
pub struct BlockView {
    pub block_type: Seq<char>,
    pub sub_block_type: Seq<char>,
    pub identifier: Seq<char>,
    pub fields: Seq<BlockFieldView>,
}

/// One raw block: its type keyword, its optional sub-block-type qualifier and
/// quoted identifier, and its field lines.
#[derive(Debug)]
pub struct Block {
    identifier: String,
    block_type: String,
    sub_block_type: String,
    fields: Vec<BlockField>,
}

impl View for Block {
    type V = BlockView;

    closed spec fn view(&self) -> BlockView {
        BlockView {
            block_type: self.block_type@,
            sub_block_type: self.sub_block_type@,
            identifier: self.identifier@,
            fields: self.fields@.map_values(|f: BlockField| f@),
        }
    }
}

impl Block {
    /// A block from its parts.
    pub fn new(
        block_type: String,
        sub_block_type: String,
        identifier: String,
        fields: Vec<BlockField>,
    ) -> (r: Block)
        ensures
            r@.block_type == block_type@,
            r@.sub_block_type == sub_block_type@,
            r@.identifier == identifier@,
            r@.fields == fields@.map_values(|f: BlockField| f@),
    {
        Block { block_type, sub_block_type, identifier, fields }
    }

    /// The block's type keyword.
    pub fn block_type(&self) -> (r: &String)
        ensures
            r@ == self@.block_type,
    {
        &self.block_type
    }

    /// The block's sub-block-type qualifier; empty if none was written.
    pub fn sub_block_type(&self) -> (r: &String)
        ensures
            r@ == self@.sub_block_type,
    {
        &self.sub_block_type
    }

    /// The block's quoted identifier; empty if none was written.
    pub fn identifier(&self) -> (r: &String)
        ensures
            r@ == self@.identifier,
    {
        &self.identifier
    }

    /// The block's field lines, in order.
    pub fn fields(&self) -> (r: &Vec<BlockField>)
        ensures
            r@.map_values(|f: BlockField| f@) == self@.fields,
    {
        &self.fields
    }

    /// Appends a field to the block.
    pub fn add_field(&mut self, field: BlockField)
        ensures
            final(self)@ == (BlockView {
                fields: old(self)@.fields.push(field@),
                ..old(self)@
            }),
    {
        let ghost fv = field@;
        self.fields.push(field);
        proof {
            assert(self.fields@.map_values(|f: BlockField| f@) =~= old(self)@.fields.push(fv));
        }
    }
}

/// One step of the grouping: what the tokens from position `i` on add to the
/// accumulated blocks, `cur` being the block the last opening brace selected.
/// A block-type keyword or a field line cut short by the end of the sequence
/// is dropped, as is a field line with no block to attach to.
pub open spec fn sp_blocks(ts: Seq<TokenView>, i: int, acc: Seq<BlockView>, cur: int) -> Seq<
    BlockView,
>
    decreases ts.len() - i,
{
    if !(0 <= i < ts.len()) {
        acc
    } else {
        match ts[i] {
            TokenView::BlockType(bt) => if i + 1 >= ts.len() {
                acc
            } else if ts[i + 1] is SubBlockType {
                if i + 2 >= ts.len() {
                    acc
                } else if ts[i + 2] is BlockIdentifier {
                    sp_blocks(
                        ts,
                        i + 3,
                        acc.push(
                            BlockView {
                                block_type: bt,
                                sub_block_type: ts[i + 1]->SubBlockType_0,
                                identifier: ts[i + 2]->BlockIdentifier_0,
                                fields: Seq::empty(),
                            },
                        ),
                        cur,
                    )
                } else {
                    sp_blocks(
                        ts,
                        i + 2,
                        acc.push(
                            BlockView {
                                block_type: bt,
                                sub_block_type: ts[i + 1]->SubBlockType_0,
                                identifier: Seq::empty(),
                                fields: Seq::empty(),
                            },
                        ),
                        cur,
                    )
                }
            } else if ts[i + 1] is BlockIdentifier {
                sp_blocks(
                    ts,
                    i + 2,
                    acc.push(
                        BlockView {
                            block_type: bt,
                            sub_block_type: Seq::empty(),
                            identifier: ts[i + 1]->BlockIdentifier_0,
                            fields: Seq::empty(),
                        },
                    ),
                    cur,
                )
            } else {
                sp_blocks(
                    ts,
                    i + 1,
                    acc.push(
                        BlockView {
                            block_type: bt,
                            sub_block_type: Seq::empty(),
                            identifier: Seq::empty(),
                            fields: Seq::empty(),
                        },
                    ),
                    cur,
                )
            },
            TokenView::LeftBrace => sp_blocks(
                ts,
                i + 1,
                acc,
                if acc.len() > 0 {
                    acc.len() - 1
                } else {
                    cur
                },
            ),
            TokenView::Identifier(id) => if i + 1 >= ts.len() {
                acc
            } else {
                let enabled = ts[i + 1] matches TokenView::Flag(true);
                let vi = if ts[i + 1] is Flag {
                    i + 2
                } else {
                    i + 1
                };
                if vi >= ts.len() {
                    acc
                } else {
                    let value = match ts[vi] {
                        TokenView::StringValue(s) => s,
                        TokenView::BlockIdentifier(s) => s,
                        _ => Seq::<char>::empty(),
                    };
                    let consumed = match ts[vi] {
                        TokenView::StringValue(_) => true,
                        TokenView::BlockIdentifier(_) => true,
                        TokenView::Identifier(_) => true,
                        _ => false,
                    };
                    let field = BlockFieldView { identifier: id, enabled, value };
                    let acc2 = if 0 <= cur < acc.len() {
                        acc.update(
                            cur,
                            BlockView { fields: acc[cur].fields.push(field), ..acc[cur] },
                        )
                    } else {
                        acc
                    };
                    sp_blocks(
                        ts,
                        if consumed {
                            vi + 1
                        } else {
                            vi
                        },
                        acc2,
                        cur,
                    )
                }
            },
            _ => sp_blocks(ts, i + 1, acc, cur),
        }
    }
}

/// Groups a token sequence into raw blocks, skipping what the grouping does
/// not recognize.
pub fn collect_blocks(tokens: &Vec<Token>) -> (r: Vec<Block>)
    ensures
        r@.map_values(|b: Block| b@) == sp_blocks(
            crate::parser::views_of(tokens@),
            0,
            Seq::empty(),
            0,
        ),
{
    let ghost vs = crate::parser::views_of(tokens@);
    let mut blocks: Vec<Block> = Vec::new();
    let mut cur: usize = 0;
    let mut i: usize = 0;
    proof {
        assert(blocks@.map_values(|b: Block| b@) =~= Seq::<BlockView>::empty());
    }
    while i < tokens.len()
        invariant
            i <= tokens@.len(),
            ((cur as int) == 0 || (cur as int) < blocks@.len()),
            vs == crate::parser::views_of(tokens@),
            sp_blocks(vs, 0, Seq::empty(), 0) == sp_blocks(
                vs,
                i as int,
                blocks@.map_values(|b: Block| b@),
                cur as int,
            ),
        decreases tokens@.len() - i,
    {
        let ghost accv = blocks@.map_values(|b: Block| b@);
        proof {
            assert(vs[i as int] == tokens@[i as int]@);
        }
        match &tokens[i] {
            Token::BlockType(bt) => {
                if i + 1 >= tokens.len() {
                    i = tokens.len();
                } else {
                    proof {
                        assert(vs[i as int + 1] == tokens@[i as int + 1]@);
                    }
                    let block_type = bt.clone();
                    let sub = match &tokens[i + 1] {
                        Token::SubBlockType(s) => Some(s.clone()),
                        _ => None,
                    };
                    match sub {
                        Some(sub_block_type) => {
                            if i + 2 >= tokens.len() {
                                i = tokens.len();
                            } else {
                                proof {
                                    assert(vs[i as int + 2] == tokens@[i as int + 2]@);
                                }
                                let named = match &tokens[i + 2] {
                                    Token::BlockIdentifier(s) => Some(s.clone()),
                                    _ => None,
                                };
                                match named {
                                    Some(identifier) => {
                                        let b = Block::new(
                                            block_type,
                                            sub_block_type,
                                            identifier,
                                            Vec::new(),
                                        );
                                        let ghost bv = b@;
                                        blocks.push(b);
                                        proof {
                                            assert(blocks@.map_values(|b: Block| b@)
                                                =~= accv.push(bv));
                                            assert(bv.fields =~= Seq::<BlockFieldView>::empty());
                                        }
                                        i = i + 3;
                                    },
                                    None => {
                                        let b = Block::new(
                                            block_type,
                                            sub_block_type,
                                            String::new(),
                                            Vec::new(),
                                        );
                                        let ghost bv = b@;
                                        blocks.push(b);
                                        proof {
                                            assert(blocks@.map_values(|b: Block| b@)
                                                =~= accv.push(bv));
                                            assert(bv.fields =~= Seq::<BlockFieldView>::empty());
                                        }
                                        i = i + 2;
                                    },
                                }
                            }
                        },
                        None => {
                            let named = match &tokens[i + 1] {
                                Token::BlockIdentifier(s) => Some(s.clone()),
                                _ => None,
                            };
                            match named {
                                Some(identifier) => {
                                    let b = Block::new(
                                        block_type,
                                        String::new(),
                                        identifier,
                                        Vec::new(),
                                    );
                                    let ghost bv = b@;
                                    blocks.push(b);
                                    proof {
                                        assert(blocks@.map_values(|b: Block| b@) =~= accv.push(
                                            bv,
                                        ));
                                        assert(bv.fields =~= Seq::<BlockFieldView>::empty());
                                    }
                                    i = i + 2;
                                },
                                None => {
                                    let b = Block::new(
                                        block_type,
                                        String::new(),
                                        String::new(),
                                        Vec::new(),
                                    );
                                    let ghost bv = b@;
                                    blocks.push(b);
                                    proof {
                                        assert(blocks@.map_values(|b: Block| b@) =~= accv.push(
                                            bv,
                                        ));
                                        assert(bv.fields =~= Seq::<BlockFieldView>::empty());
                                    }
                                    i = i + 1;
                                },
                            }
                        },
                    }
                }
            },
            Token::LeftBrace => {
                if blocks.len() > 0 {
                    cur = blocks.len() - 1;
                }
                i = i + 1;
            },
            Token::Identifier(id) => {
                if i + 1 >= tokens.len() {
                    i = tokens.len();
                } else {
                    proof {
                        assert(vs[i as int + 1] == tokens@[i as int + 1]@);
                    }
                    let identifier = id.clone();
                    let flag = match &tokens[i + 1] {
                        Token::Flag(b) => Some(*b),
                        _ => None,
                    };
                    let enabled = match flag {
                        Some(b) => b,
                        None => false,
                    };
                    let vi = if flag.is_some() {
                        i + 2
                    } else {
                        i + 1
                    };
                    if vi >= tokens.len() {
                        i = tokens.len();
                    } else {
                        proof {
                            assert(vs[vi as int] == tokens@[vi as int]@);
                        }
                        let value = match &tokens[vi] {
                            Token::StringValue(s) => s.clone(),
                            Token::BlockIdentifier(s) => s.clone(),
                            _ => String::new(),
                        };
                        let consumed = match &tokens[vi] {
                            Token::StringValue(_) => true,
                            Token::BlockIdentifier(_) => true,
                            Token::Identifier(_) => true,
                            _ => false,
                        };
                        let field = BlockField::new(identifier, enabled, value);
                        let ghost fv = field@;
                        if cur < blocks.len() {
                            let b = &mut blocks[cur];
                            b.add_field(field);
                            proof {
                                assert(blocks@.map_values(|b: Block| b@) =~= accv.update(
                                    cur as int,
                                    BlockView {
                                        fields: accv[cur as int].fields.push(fv),
                                        ..accv[cur as int]
                                    },
                                ));
                            }
                        }
                        i = if consumed {
                            vi + 1
                        } else {
                            vi
                        };
                    }
                }
            },
            _ => {
                i = i + 1;
            },
        }
    }
    blocks
}

} // verus!
