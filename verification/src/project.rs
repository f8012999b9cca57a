use vstd::prelude::*;

use crate::header::{default_header, header_decode, header_wire, Header, HeaderM};
use crate::shape::{
    lemma_shapes_model_index, lemma_shapes_model_len, lemma_shapes_model_snoc,
    lemma_shapes_wf_index, shapes_decode, shapes_model, shapes_wf, shapes_wire, Shape, ShapeM,
};
use crate::wire::{
    arr_push, lemma_list_model_index, lemma_list_model_len, list_model, DecodeError, JVal, Value,
};

verus! {

broadcast use vstd::std_specs::vec::group_vec_axioms, vstd::seq::group_seq_axioms;

/// A chart document: the header plus the placed shapes, in paint order —
/// the first shape is drawn first.
#[derive(Debug, PartialEq)]
pub struct Project {
    pub header: Header,
    pub shapes: Vec<Shape>,
}

/// The mathematical model of a document.
#[verifier::ext_equal]
pub struct ProjectM {
    pub header: HeaderM,
    pub shapes: Seq<ShapeM>,
}

impl View for Project {
    type V = ProjectM;

    open spec fn view(&self) -> ProjectM {
        ProjectM { header: self.header@, shapes: shapes_model(self.shapes@) }
    }
}

impl ProjectM {
    /// The document invariant: the header is well formed and so is every
    /// shape, nested ones included.
    pub open spec fn wf(self) -> bool {
        self.header.wf() && shapes_wf(self.shapes)
    }
}

impl Default for Project {
    /// A fresh document: default header, no shapes.
    fn default() -> (r: Project)
        ensures
            r@.header == default_header(),
            r@.shapes == Seq::<ShapeM>::empty(),
            r@.wf(),
    {
        let r = Project { header: Header::default(), shapes: Vec::new() };
        proof {
            assert(shapes_model(r.shapes@) =~= Seq::<ShapeM>::empty());
        }
        r
    }
}

/// A document as it stands on the wire: a JSON array holding the header
/// object at index 0 and then each shape, in list order, as a sibling
/// element.
pub open spec fn doc_wire(p: ProjectM) -> JVal {
    JVal::Arr(seq![header_wire(p.header)] + shapes_wire(p.shapes))
}

/// What decoding a wire document yields: anything but an array with a
/// decodable header at index 0 is rejected, and the first failing shape
/// aborts the whole decode — no partial document is ever produced.
pub open spec fn doc_decode(j: JVal) -> Result<ProjectM, DecodeError> {
    match j {
        JVal::Arr(a) => if a.len() == 0 {
            Err(DecodeError::MalformedJson)
        } else {
            match header_decode(a[0]) {
                Err(e) => Err(e),
                Ok(h) => match shapes_decode(a.drop_first()) {
                    Err(e) => Err(e),
                    Ok(ss) => Ok(ProjectM { header: h, shapes: ss }),
                },
            }
        },
        _ => Err(DecodeError::MalformedJson),
    }
}

impl Project {
    /// Encodes this document as the wire array. Never fails: every
    /// in-memory document satisfying the invariants is representable.
    pub fn as_json(&self) -> (r: Value)
        requires
            shapes_wf(self@.shapes),
        ensures
            r@ == doc_wire(self@),
    {
        let ghost sm = shapes_model(self.shapes@);
        proof {
            lemma_shapes_model_len(self.shapes@);
        }
        let mut items: Vec<Value> = Vec::new();
        arr_push(&mut items, self.header.as_json());
        proof {
            assert(sm.take(0) =~= Seq::<ShapeM>::empty());
            assert(list_model(items@) =~= seq![header_wire(self.header@)]
                + shapes_wire(sm.take(0)));
        }
        let mut i: usize = 0;
        while i < self.shapes.len()
            invariant
                i <= self.shapes@.len(),
                sm == shapes_model(self.shapes@),
                sm.len() == self.shapes@.len(),
                shapes_wf(sm),
                list_model(items@) == seq![header_wire(self.header@)]
                    + shapes_wire(sm.take(i as int)),
            decreases self.shapes@.len() - i,
        {
            proof {
                lemma_shapes_model_index(self.shapes@, i as int);
                lemma_shapes_wf_index(sm, i as int);
            }
            let v = self.shapes[i].as_json();
            arr_push(&mut items, v);
            proof {
                crate::shape::lemma_shapes_wire_snoc(sm.take(i as int), sm[i as int]);
                assert(sm.take(i as int + 1) =~= sm.take(i as int).push(sm[i as int]));
                assert(list_model(items@) =~= seq![header_wire(self.header@)]
                    + shapes_wire(sm.take(i as int + 1)));
            }
            i = i + 1;
        }
        proof {
            assert(sm.take(sm.len() as int) =~= sm);
        }
        let r = Value::Arr(items);
        proof {
            assert(r@ == doc_wire(self@));
        }
        r
    }

    /// Decodes a document from a wire value, per `doc_decode`: a typed
    /// error on any malformed input, never a partial document. A returned
    /// document has a well-formed header.
    pub fn from_json(v: &Value) -> (r: Result<Project, DecodeError>)
        ensures
            match r {
                Ok(p) => doc_decode(v@) == Ok::<ProjectM, DecodeError>(p@) && p@.header.wf(),
                Err(e) => doc_decode(v@) == Err::<ProjectM, DecodeError>(e),
            },
    {
        let items = match v {
            Value::Arr(items) => items,
            _ => { return Err(DecodeError::MalformedJson); },
        };
        let ghost am = list_model(items@);
        proof {
            lemma_list_model_len(items@);
        }
        if items.len() == 0 {
            return Err(DecodeError::MalformedJson);
        }
        proof {
            lemma_list_model_index(items@, 0);
        }
        let header = match Header::from_json(&items[0]) {
            Ok(h) => h,
            Err(e) => { return Err(e); },
        };
        let mut shapes: Vec<Shape> = Vec::new();
        proof {
            assert(am.drop_first() =~= am.skip(1));
            assert(shapes_model(shapes@) =~= Seq::<ShapeM>::empty());
        }
        let mut i: usize = 1;
        while i < items.len()
            invariant
                1 <= i <= items@.len(),
                am == list_model(items@),
                am.len() == items@.len(),
                *v matches Value::Arr(iv) && iv@ == items@,
                am.len() >= 1,
                header_decode(am[0]) == Ok::<HeaderM, DecodeError>(header@),
                header@.wf(),
                shapes_model(shapes@).len() == i - 1,
                shapes_decode(am.drop_first()) == (match shapes_decode(am.skip(i as int)) {
                    Ok(rest) => Ok::<Seq<ShapeM>, DecodeError>(shapes_model(shapes@) + rest),
                    Err(e) => Err::<Seq<ShapeM>, DecodeError>(e),
                }),
            decreases items@.len() - i,
        {
            proof {
                lemma_list_model_index(items@, i as int);
                assert(am.skip(i as int)[0] == am[i as int]);
                assert(am.skip(i as int).drop_first() =~= am.skip(i as int + 1));
                lemma_shapes_model_len(shapes@);
            }
            let ghost pre = shapes_model(shapes@);
            let ghost prev = shapes@;
            match Shape::from_json(&items[i]) {
                Ok(s) => {
                    shapes.push(s);
                    proof {
                        lemma_shapes_model_snoc(prev, s);
                        match shapes_decode(am.skip(i as int + 1)) {
                            Ok(rest) => {
                                assert(shapes_model(shapes@) + rest =~= pre + (seq![s@] + rest));
                            },
                            Err(_) => {},
                        }
                    }
                },
                Err(e) => {
                    proof {
                        assert(shapes_decode(am.drop_first())
                            == Err::<Seq<ShapeM>, DecodeError>(e));
                    }
                    return Err(e);
                },
            }
            i = i + 1;
        }
        proof {
            assert(am.skip(i as int) =~= Seq::<JVal>::empty());
            assert(shapes_decode(am.skip(i as int)) == Ok::<Seq<ShapeM>, DecodeError>(Seq::empty()));
            assert(shapes_model(shapes@) + Seq::<ShapeM>::empty() =~= shapes_model(shapes@));
        }
        let r = Project { header, shapes };
        proof {
            assert(doc_decode(v@) matches Ok(pm) && pm =~= r@);
        }
        Ok(r)
    }
}

} // verus!
