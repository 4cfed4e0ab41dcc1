//! Tests of the APML parser, one parsing function at a time.

use libabbs::apml::grammar::{TextCtx, WordCtx};
use libabbs::apml::lst::{
    ApmlLst, ArrayToken, BracedExpansion, ExpansionModifier, LiteralPart, Text, TextUnit, Token,
    VariableDefinition, VariableOp, VariableValue, Word,
};
use libabbs::apml::parser;
use libabbs::apml::pattern::{BashPattern, GlobPart};

fn chars(i: &str) -> Vec<char> {
    i.chars().collect()
}

/// The text of `i` from the character position `p` on.
fn rest(i: &str, p: usize) -> &str {
    let off: usize = i.chars().take(p).map(|c| c.len_utf8()).sum();
    &i[off..]
}

fn lift<T>(i: &str, r: Option<(T, usize)>) -> Result<(&str, T), ()> {
    match r {
        Some((t, p)) => Ok((rest(i, p), t)),
        None => Err(()),
    }
}

fn apml_lst(i: &str) -> Result<(&str, ApmlLst), ()> {
    let (l, p) = parser::apml_lst(&chars(i));
    Ok((rest(i, p), l))
}

fn token(i: &str) -> Result<(&str, Token), ()> {
    lift(i, parser::token(&chars(i), 0))
}

fn spacy_char(i: &str) -> Result<(&str, char), ()> {
    match token(i)? {
        (r, Token::Spacy(c)) => Ok((r, c)),
        _ => Err(()),
    }
}

fn variable_def(i: &str) -> Result<(&str, VariableDefinition), ()> {
    lift(i, parser::variable_def(&chars(i), 0))
}

fn variable_op(i: &str) -> Result<(&str, VariableOp), ()> {
    lift(i, parser::variable_op(&chars(i), 0))
}

fn variable_name(i: &str) -> Result<(&str, &str), ()> {
    match parser::name(&chars(i), 0) {
        Some((n, p)) => {
            let r = rest(i, p);
            assert_eq!(n, &i[..i.len() - r.len()]);
            Ok((r, &i[..i.len() - r.len()]))
        }
        None => Err(()),
    }
}

fn variable_value(i: &str) -> Result<(&str, VariableValue), ()> {
    let (v, p) = parser::variable_value(&chars(i), 0);
    Ok((rest(i, p), v))
}

fn array_token(i: &str) -> Result<(&str, ArrayToken), ()> {
    lift(i, parser::array_token(&chars(i), 0))
}

fn text(i: &str, ctx: TextCtx) -> Result<(&str, Text), ()> {
    let (units, p) = parser::text_units(&chars(i), 0, ctx);
    if units.is_empty() {
        Err(())
    } else {
        Ok((rest(i, p), Text(units)))
    }
}

fn text_or_null(i: &str, ctx: TextCtx) -> Result<(&str, Text), ()> {
    let (units, p) = parser::text_units(&chars(i), 0, ctx);
    Ok((rest(i, p), Text(units)))
}

fn text_unit(i: &str, ctx: TextCtx) -> Result<(&str, TextUnit), ()> {
    lift(i, parser::text_unit(&chars(i), 0, ctx))
}

fn word(i: &str, w: WordCtx) -> Result<(&str, Word), ()> {
    lift(i, parser::word(&chars(i), 0, w))
}

fn literal_part(i: &str, w: WordCtx) -> Result<(&str, LiteralPart), ()> {
    lift(i, parser::literal_part(&chars(i), 0, w))
}

fn braced_expansion(i: &str) -> Result<(&str, BracedExpansion), ()> {
    lift(i, parser::braced_expansion(&chars(i), 0))
}

fn expansion_modifier(i: &str) -> Result<(&str, ExpansionModifier), ()> {
    lift(i, parser::expansion_modifier(&chars(i), 0))
}

fn substring_expansion_modifier(i: &str) -> Result<(&str, ExpansionModifier), ()> {
    lift(i, parser::substring(&chars(i), 0))
}

#[test]
fn test_ast() {
    let src = r##"# Test APML

a=b'c' # Inline comment
K=a"${#a} $ab b\ \\#l \
安安本来是只兔子，但有一天早上醒来发现自己变成了长着兔耳和兔尾巴的人类
c ${1:1}${1:1: -1}${1##a}${1#a.*[:alpha:]b?\?}${1%%1}${1%1}\
${1/a/a}${1//a?a/$a}${1/#a/b}${1/%a/b}${1^*}${1^^*}${1,*}\
${1,,*}${1:?err}${1:-unset}${1:+set}${1/a}${1//a}${1/#a}\
${1/%a}${1//a/}"
b+=("-a" \
    -b "${a[@]}" "${a[*]}$(a)" #asdf
)
"##;
    assert_eq!(
        apml_lst(src).unwrap(),
        (
            "",
            ApmlLst(vec![
                Token::Comment(" Test APML".to_string()),
                Token::Newline,
                Token::Newline,
                Token::Variable(VariableDefinition {
                    name: "a".to_string(),
                    op: VariableOp::Assignment,
                    value: VariableValue::String(Box::new(Text(vec![
                        TextUnit::Unquoted(vec![Word::Literal(vec![
                            LiteralPart::String("b".to_string())
                        ])]),
                        TextUnit::SingleQuote("c".to_string())
                    ])))
                }),
                Token::Spacy(' '),
                Token::Comment(" Inline comment".to_string()),
                Token::Newline,
                Token::Variable(VariableDefinition {
                    name: "K".to_string(),
                    op: VariableOp::Assignment,
                    value: VariableValue::String(Box::new(Text(vec![
                        TextUnit::Unquoted(vec![Word::Literal(vec![
                            LiteralPart::String("a".to_string())
                        ])]),
                        TextUnit::DoubleQuote(vec![
                            Word::BracedVariable(BracedExpansion {
                                name: "a".to_string(),
                                modifier: Some(ExpansionModifier::Length)
                            }),
                            Word::Literal(vec![LiteralPart::String(
                                " ".to_string()
                            ),]),
                            Word::UnbracedVariable("ab".to_string()),
                            Word::Literal(vec![
                                LiteralPart::String(" b".to_string()),
                                LiteralPart::String("\\ ".to_string()),
                                LiteralPart::Escaped('\\'),
                                LiteralPart::String("#l ".to_string()),
                                LiteralPart::LineContinuation,
                                LiteralPart::String("安安本来是只兔子，但有一天早上醒来发现自己变成了长着兔耳和兔尾巴的人类\nc ".to_string()),
                            ]),
                            Word::BracedVariable(BracedExpansion {
                                name: "1".to_string(),
                                modifier: Some(
                                    ExpansionModifier::Substring {
                                        offset: "1".to_string(),
                                        length: None
                                    }
                                )
                            }),
                            Word::BracedVariable(BracedExpansion {
                                name: "1".to_string(),
                                modifier: Some(
                                    ExpansionModifier::Substring {
                                        offset: "1".to_string(),
                                        length: Some(" -1".to_string())
                                    }
                                )
                            }),
                            Word::BracedVariable(BracedExpansion {
                                name: "1".to_string(),
                                modifier: Some(
                                    ExpansionModifier::StripLongestPrefix(
                                        Box::new(BashPattern(vec![
                                            GlobPart::String(
                                                "a".to_string()
                                            )
                                        ]))
                                    )
                                )
                            }),
                            Word::BracedVariable(BracedExpansion {
                                name: "1".to_string(),
                                modifier: Some(
                                    ExpansionModifier::StripShortestPrefix(
                                        Box::new(BashPattern(vec![
                                            GlobPart::String(
                                                "a.".to_string()
                                            ),
                                            GlobPart::AnyString,
                                            GlobPart::Range(":alpha:".to_string()),
                                            GlobPart::String(
                                                "b".to_string()
                                            ),
                                            GlobPart::AnyChar,
                                            GlobPart::Escaped('?'),
                                        ]))
                                    )
                                )
                            }),
                            Word::BracedVariable(BracedExpansion {
                                name: "1".to_string(),
                                modifier: Some(
                                    ExpansionModifier::StripLongestSuffix(
                                        Box::new(BashPattern(vec![
                                            GlobPart::String(
                                                "1".to_string()
                                            )
                                        ]))
                                    )
                                )
                            }),
                            Word::BracedVariable(BracedExpansion {
                                name: "1".to_string(),
                                modifier: Some(
                                    ExpansionModifier::StripShortestSuffix(
                                        Box::new(BashPattern(vec![
                                            GlobPart::String(
                                                "1".to_string()
                                            )
                                        ]))
                                    )
                                )
                            }),
                            Word::Literal(vec![
                                LiteralPart::LineContinuation
                            ]),
                            Word::BracedVariable(BracedExpansion {
                                name: "1".to_string(),
                                modifier: Some(
                                    ExpansionModifier::ReplaceOnce {
                                        pattern: Box::new(BashPattern(
                                            vec![GlobPart::String(
                                                "a".to_string()
                                            )]
                                        )),
                                        string: Some(Box::new(Text(vec![
                                            TextUnit::Unquoted(vec![
                                                Word::Literal(vec![
                                                    LiteralPart::String(
                                                        "a".to_string()
                                                    )
                                                ])
                                            ])
                                        ])))
                                    }
                                )
                            }),
                            Word::BracedVariable(BracedExpansion {
                                name: "1".to_string(),
                                modifier: Some(
                                    ExpansionModifier::ReplaceAll {
                                        pattern: Box::new(BashPattern(
                                            vec![
                                                GlobPart::String(
                                                    "a".to_string()
                                                ),
                                                GlobPart::AnyChar,
                                                GlobPart::String(
                                                    "a".to_string()
                                                )
                                            ]
                                        )),
                                        string: Some(Box::new(Text(vec![
                                            TextUnit::Unquoted(vec![
                                                Word::UnbracedVariable(
                                                    "a".to_string()
                                                )
                                            ])
                                        ])))
                                    }
                                )
                            }),
                            Word::BracedVariable(BracedExpansion {
                                name: "1".to_string(),
                                modifier: Some(
                                    ExpansionModifier::ReplacePrefix {
                                        pattern: Box::new(BashPattern(
                                            vec![GlobPart::String(
                                                "a".to_string()
                                            )]
                                        )),
                                        string: Some(Box::new(Text(vec![
                                            TextUnit::Unquoted(vec![
                                                Word::Literal(vec![
                                                    LiteralPart::String(
                                                        "b".to_string()
                                                    )
                                                ])
                                            ])
                                        ])))
                                    }
                                )
                            }),
                            Word::BracedVariable(BracedExpansion {
                                name: "1".to_string(),
                                modifier: Some(
                                    ExpansionModifier::ReplaceSuffix {
                                        pattern: Box::new(BashPattern(
                                            vec![GlobPart::String(
                                                "a".to_string()
                                            )]
                                        )),
                                        string: Some(Box::new(Text(vec![
                                            TextUnit::Unquoted(vec![
                                                Word::Literal(vec![
                                                    LiteralPart::String(
                                                        "b".to_string()
                                                    )
                                                ])
                                            ])
                                        ])))
                                    }
                                )
                            }),
                            Word::BracedVariable(BracedExpansion {
                                name: "1".to_string(),
                                modifier: Some(
                                    ExpansionModifier::UpperOnce(Box::new(
                                        BashPattern(vec![
                                            GlobPart::AnyString
                                        ])
                                    ))
                                )
                            }),
                            Word::BracedVariable(BracedExpansion {
                                name: "1".to_string(),
                                modifier: Some(
                                    ExpansionModifier::UpperAll(Box::new(
                                        BashPattern(vec![
                                            GlobPart::AnyString
                                        ])
                                    ))
                                )
                            }),
                            Word::BracedVariable(BracedExpansion {
                                name: "1".to_string(),
                                modifier: Some(
                                    ExpansionModifier::LowerOnce(Box::new(
                                        BashPattern(vec![
                                            GlobPart::AnyString
                                        ])
                                    ))
                                )
                            }),
                            Word::Literal(vec![
                                LiteralPart::LineContinuation
                            ]),
                            Word::BracedVariable(BracedExpansion {
                                name: "1".to_string(),
                                modifier: Some(
                                    ExpansionModifier::LowerAll(Box::new(
                                        BashPattern(vec![
                                            GlobPart::AnyString
                                        ])
                                    ))
                                )
                            }),
                            Word::BracedVariable(BracedExpansion {
                                name: "1".to_string(),
                                modifier: Some(
                                    ExpansionModifier::ErrorOnUnset(
                                        Box::new(Text(vec![
                                            TextUnit::Unquoted(vec![
                                                Word::Literal(vec![
                                                    LiteralPart::String(
                                                        "err".to_string()
                                                    )
                                                ])
                                            ])
                                        ]))
                                    )
                                )
                            }),
                            Word::BracedVariable(BracedExpansion {
                                name: "1".to_string(),
                                modifier: Some(
                                    ExpansionModifier::WhenUnset(Box::new(
                                        Text(vec![TextUnit::Unquoted(
                                            vec![Word::Literal(vec![
                                                LiteralPart::String(
                                                    "unset".to_string()
                                                )
                                            ])]
                                        )])
                                    ))
                                )
                            }),
                            Word::BracedVariable(BracedExpansion {
                                name: "1".to_string(),
                                modifier: Some(ExpansionModifier::WhenSet(
                                    Box::new(Text(vec![
                                        TextUnit::Unquoted(vec![
                                            Word::Literal(vec![
                                                LiteralPart::String(
                                                    "set".to_string()
                                                )
                                            ])
                                        ])
                                    ]))
                                ))
                            }),
                            Word::BracedVariable(BracedExpansion {
                                name: "1".to_string(),
                                modifier: Some(
                                    ExpansionModifier::ReplaceOnce {
                                        pattern: Box::new(BashPattern(
                                            vec![GlobPart::String(
                                                "a".to_string()
                                            )]
                                        )),
                                        string: None
                                    }
                                )
                            }),
                            Word::BracedVariable(BracedExpansion {
                                name: "1".to_string(),
                                modifier: Some(
                                    ExpansionModifier::ReplaceAll {
                                        pattern: Box::new(BashPattern(
                                            vec![GlobPart::String(
                                                "a".to_string()
                                            )]
                                        )),
                                        string: None
                                    }
                                )
                            }),
                            Word::BracedVariable(BracedExpansion {
                                name: "1".to_string(),
                                modifier: Some(
                                    ExpansionModifier::ReplacePrefix {
                                        pattern: Box::new(BashPattern(
                                            vec![GlobPart::String(
                                                "a".to_string()
                                            )]
                                        )),
                                        string: None
                                    }
                                )
                            }),
                            Word::Literal(vec![
                                LiteralPart::LineContinuation
                            ]),
                            Word::BracedVariable(BracedExpansion {
                                name: "1".to_string(),
                                modifier: Some(
                                    ExpansionModifier::ReplaceSuffix {
                                        pattern: Box::new(BashPattern(
                                            vec![GlobPart::String(
                                                "a".to_string()
                                            )]
                                        )),
                                        string: None
                                    }
                                )
                            }),
                            Word::BracedVariable(BracedExpansion {
                                name: "1".to_string(),
                                modifier: Some(
                                    ExpansionModifier::ReplaceAll {
                                        pattern: Box::new(BashPattern(
                                            vec![GlobPart::String(
                                                "a".to_string()
                                            )]
                                        )),
                                        string: Some(Box::new(Text(
                                            vec![]
                                        )))
                                    }
                                )
                            }),
                        ])
                    ])))
                }),
                Token::Newline,
                Token::Variable(VariableDefinition {
                    name: "b".to_string(),
                    op: VariableOp::Append,
                    value: VariableValue::Array(vec![
                        ArrayToken::Element(Box::new(Text(vec![
                            TextUnit::DoubleQuote(vec![Word::Literal(
                                vec![LiteralPart::String("-a".to_string())]
                            )])
                        ]))),
                        ArrayToken::Spacy(' '),
                        ArrayToken::Element(Box::new(Text(vec![
                            TextUnit::Unquoted(vec![Word::Literal(vec![
                                LiteralPart::LineContinuation
                            ])])
                        ]))),
                        ArrayToken::Spacy(' '),
                        ArrayToken::Spacy(' '),
                        ArrayToken::Spacy(' '),
                        ArrayToken::Spacy(' '),
                        ArrayToken::Element(Box::new(Text(vec![
                            TextUnit::Unquoted(vec![Word::Literal(vec![
                                LiteralPart::String("-b".to_string())
                            ])])
                        ]))),
                        ArrayToken::Spacy(' '),
                        ArrayToken::Element(Box::new(Text(vec![
                            TextUnit::DoubleQuote(vec![
                                Word::BracedVariable(BracedExpansion {
                                    name: "a".to_string(),
                                    modifier: Some(
                                        ExpansionModifier::ArrayElements
                                    )
                                })
                            ])
                        ]))),
                        ArrayToken::Spacy(' '),
                        ArrayToken::Element(Box::new(Text(vec![
                            TextUnit::DoubleQuote(vec![
                            Word::BracedVariable(BracedExpansion {
                                name: "a".to_string(),
                                modifier: Some(ExpansionModifier::SingleWordElements)
                            }),
                            Word::Subcommand(vec![ArrayToken::Element(Box::new(Text(vec![
                                TextUnit::Unquoted(vec![Word::Literal(vec![
                                    LiteralPart::String("a".to_string())
                                ])])
                            ])))]),
                        ])
                        ]))),
                        ArrayToken::Spacy(' '),
                        ArrayToken::Comment("asdf".to_string()),
                        ArrayToken::Newline,
                    ])
                }),
                Token::Newline,
            ])
        )
    );
    assert_eq!(apml_lst(src).unwrap().1.to_string(), src);
    let src = r##"PKGVER=8.2
PKGDEP="x11-lib libdrm expat systemd elfutils libvdpau nettle \
        libva wayland s2tc lm-sensors libglvnd llvm-runtime libclc"
MESON_AFTER="-Ddri-drivers-path=/usr/lib/xorg/modules/dri \
             -Db_ndebug=true" 
MESON_AFTER__AMD64=" \
             ${MESON_AFTER} \
             -Dlibunwind=true""##;
    assert_eq!(apml_lst(src).unwrap().1.to_string(), src);
}

#[test]
fn parser_test_token() {
    assert_eq!(
        token("#asdf").unwrap(),
        ("", Token::Comment("asdf".to_string()))
    );
    assert_eq!(
        token("#asdf \n").unwrap(),
        ("\n", Token::Comment("asdf ".to_string()))
    );
    assert_eq!(
        token("#\n").unwrap(),
        ("\n", Token::Comment("".to_string()))
    );
    assert_eq!(token(" ").unwrap(), ("", Token::Spacy(' ')));
    assert_eq!(token("\t").unwrap(), ("", Token::Spacy('\t')));
    assert_eq!(token("\n").unwrap(), ("", Token::Newline));
    assert_eq!(
        token("a=\n").unwrap(),
        (
            "\n",
            Token::Variable(VariableDefinition {
                name: "a".to_string(),
                op: VariableOp::Assignment,
                value: VariableValue::String(Box::new(Text(vec![])))
            })
        )
    );
}

#[test]
fn test_variable_def() {
    variable_def("=\n").unwrap_err();
    variable_def("?=\n").unwrap_err();
    assert_eq!(
        variable_def("a=\n").unwrap(),
        ("\n", VariableDefinition {
            name: "a".to_string(),
            op: VariableOp::Assignment,
            value: VariableValue::String(Box::new(Text(vec![])))
        })
    );
    assert_eq!(
        variable_def("a=b$0\n").unwrap(),
        ("\n", VariableDefinition {
            name: "a".to_string(),
            op: VariableOp::Assignment,
            value: VariableValue::String(Box::new(Text(vec![
                TextUnit::Unquoted(vec![
                    Word::Literal(vec![LiteralPart::String(
                        "b".to_string()
                    )]),
                    Word::UnbracedVariable("0".to_string()),
                ])
            ])))
        })
    );
    assert_eq!(
        variable_def("a+=b$0\n").unwrap(),
        ("\n", VariableDefinition {
            name: "a".to_string(),
            op: VariableOp::Append,
            value: VariableValue::String(Box::new(Text(vec![
                TextUnit::Unquoted(vec![
                    Word::Literal(vec![LiteralPart::String(
                        "b".to_string()
                    )]),
                    Word::UnbracedVariable("0".to_string()),
                ])
            ])))
        })
    );
}

#[test]
fn test_variable_op() {
    assert_eq!(
        variable_op("=123a").unwrap(),
        ("123a", VariableOp::Assignment)
    );
    assert_eq!(
        variable_op("+=123a").unwrap(),
        ("123a", VariableOp::Append)
    );
    variable_name("!!!").unwrap_err();
    variable_name("").unwrap_err();
}

#[test]
fn test_variable_name() {
    assert_eq!(variable_name("123a").unwrap(), ("", "123a"));
    assert_eq!(variable_name("a!!!").unwrap(), ("!!!", "a"));
    variable_name("!!!").unwrap_err();
    variable_name("").unwrap_err();
}

#[test]
fn parser_test_variable_value() {
    assert_eq!(
        variable_value("\n").unwrap(),
        ("\n", VariableValue::String(Box::new(Text(vec![]))))
    );
    assert_eq!(
        variable_value("123\\n\\\na!!@$1#").unwrap(),
        (
            "#",
            VariableValue::String(Box::new(Text(vec![
                TextUnit::Unquoted(vec![
                    Word::Literal(vec![
                        LiteralPart::String("123".to_string()),
                        LiteralPart::Escaped('n'),
                        LiteralPart::LineContinuation,
                        LiteralPart::String("a!!@".to_string()),
                    ]),
                    Word::UnbracedVariable("1".to_string()),
                ])
            ])))
        )
    );
    assert_eq!(
        variable_value("\"${#a} b\\ #l \\\nc\"\n").unwrap(),
        (
            "\n",
            VariableValue::String(Box::new(Text(vec![
                TextUnit::DoubleQuote(vec![
                    Word::BracedVariable(BracedExpansion {
                        name: "a".to_string(),
                        modifier: Some(ExpansionModifier::Length)
                    }),
                    Word::Literal(vec![
                        LiteralPart::String(" b".to_string()),
                        LiteralPart::String("\\ ".to_string()),
                        LiteralPart::String("#l ".to_string()),
                        LiteralPart::LineContinuation,
                        LiteralPart::String("c".to_string())
                    ])
                ])
            ])))
        )
    );
    assert_eq!(
        variable_value("(a b)\n").unwrap(),
        (
            "\n",
            VariableValue::Array(vec![
                ArrayToken::Element(Box::new(Text(vec![
                    TextUnit::Unquoted(vec![Word::Literal(vec![
                        LiteralPart::String("a".to_string()),
                    ])])
                ]))),
                ArrayToken::Spacy(' '),
                ArrayToken::Element(Box::new(Text(vec![
                    TextUnit::Unquoted(vec![Word::Literal(vec![
                        LiteralPart::String("b".to_string()),
                    ])])
                ]))),
            ])
        )
    );
    assert_eq!(
        variable_value("(a \"${#a} b\\ \\\\#l \\\nc\"\n)\n").unwrap(),
        (
            "\n",
            VariableValue::Array(vec![
                ArrayToken::Element(Box::new(Text(vec![
                    TextUnit::Unquoted(vec![Word::Literal(vec![
                        LiteralPart::String("a".to_string()),
                    ])])
                ]))),
                ArrayToken::Spacy(' '),
                ArrayToken::Element(Box::new(Text(vec![
                    TextUnit::DoubleQuote(vec![
                        Word::BracedVariable(BracedExpansion {
                            name: "a".to_string(),
                            modifier: Some(ExpansionModifier::Length)
                        }),
                        Word::Literal(vec![
                            LiteralPart::String(" b".to_string()),
                            LiteralPart::String("\\ ".to_string()),
                            LiteralPart::Escaped('\\'),
                            LiteralPart::String("#l ".to_string()),
                            LiteralPart::LineContinuation,
                            LiteralPart::String("c".to_string())
                        ])
                    ])
                ]))),
                ArrayToken::Newline,
            ])
        )
    );
}

#[test]
fn test_array_token() {
    assert_eq!(array_token(" a").unwrap(), ("a", ArrayToken::Spacy(' ')));
    assert_eq!(array_token("\ta").unwrap(), ("a", ArrayToken::Spacy('\t')));
    assert_eq!(array_token("\na").unwrap(), ("a", ArrayToken::Newline));
    assert_eq!(
        array_token("#asdf\na").unwrap(),
        ("\na", ArrayToken::Comment("asdf".to_string()))
    );
    assert_eq!(
        array_token("asdf ").unwrap(),
        (
            " ",
            ArrayToken::Element(Box::new(Text(vec![TextUnit::Unquoted(
                vec![Word::Literal(vec![LiteralPart::String(
                    "asdf".to_string()
                )])]
            )])))
        )
    );
    assert_eq!(
        array_token("'asdf' ").unwrap(),
        (
            " ",
            ArrayToken::Element(Box::new(Text(vec![
                TextUnit::SingleQuote("asdf".to_string())
            ])))
        )
    );
}

#[test]
fn parser_test_text() {
    text("", TextCtx::Value).unwrap_err();
    assert_eq!(text_or_null("", TextCtx::Value).unwrap(), ("", Text(vec![])));
    assert_eq!(
        text("asd\\f\\\n134$a'test'\"a$a${a}  \" a", TextCtx::Value)
        .unwrap(),
        (
            " a",
            Text(vec![
                TextUnit::Unquoted(vec![
                    Word::Literal(vec![
                        LiteralPart::String("asd".to_string()),
                        LiteralPart::Escaped('f'),
                        LiteralPart::LineContinuation,
                        LiteralPart::String("134".to_string())
                    ]),
                    Word::UnbracedVariable("a".to_string()),
                ]),
                TextUnit::SingleQuote("test".to_string()),
                TextUnit::DoubleQuote(vec![
                    Word::Literal(vec![LiteralPart::String(
                        "a".to_string()
                    )]),
                    Word::UnbracedVariable("a".to_string()),
                    Word::BracedVariable(BracedExpansion {
                        name: "a".to_string(),
                        modifier: None
                    }),
                    Word::Literal(vec![LiteralPart::String(
                        "  ".to_string()
                    )]),
                ])
            ])
        )
    );
    assert_eq!(
        text("asd\\f\n134$a'test'\"a$a${a}  \" a", TextCtx::Value)
            .unwrap(),
        (
            "\n134$a'test'\"a$a${a}  \" a",
            Text(vec![TextUnit::Unquoted(vec![Word::Literal(vec![
                LiteralPart::String("asd".to_string()),
                LiteralPart::Escaped('f'),
            ]),]),])
        )
    );
}

#[test]
fn test_text_unit() {
    assert_eq!(
        text_unit("asdf134 a", TextCtx::Value).unwrap(),
        (
            " a",
            TextUnit::Unquoted(vec![Word::Literal(vec![
                LiteralPart::String("asdf134".to_string())
            ])])
        )
    );
    assert_eq!(
        text_unit("'123 a'", TextCtx::Value).unwrap(),
        ("", TextUnit::SingleQuote("123 a".to_string()))
    );
    assert_eq!(
        text_unit("1$a${#b}' a$a", TextCtx::Value).unwrap(),
        (
            "' a$a",
            TextUnit::Unquoted(vec![
                Word::Literal(vec![LiteralPart::String("1".to_string())]),
                Word::UnbracedVariable("a".to_string()),
                Word::BracedVariable(BracedExpansion {
                    name: "b".to_string(),
                    modifier: Some(ExpansionModifier::Length),
                }),
            ])
        )
    );
    assert_eq!(
        text_unit("\"1\\\na$a${#b}安同'\" a", TextCtx::Value).unwrap(),
        (
            " a",
            TextUnit::DoubleQuote(vec![
                Word::Literal(vec![
                    LiteralPart::String("1".to_string()),
                    LiteralPart::LineContinuation,
                    LiteralPart::String("a".to_string())
                ]),
                Word::UnbracedVariable("a".to_string()),
                Word::BracedVariable(BracedExpansion {
                    name: "b".to_string(),
                    modifier: Some(ExpansionModifier::Length),
                }),
                Word::Literal(vec![LiteralPart::String("安同'".to_string())]),
            ])
        )
    );
    text_unit("", TextCtx::Value).unwrap_err();
}

#[test]
fn parser_test_word() {
    assert_eq!(
        word("asdf134 a", WordCtx::Unquoted(TextCtx::Value)).unwrap(),
        (
            " a",
            Word::Literal(vec![LiteralPart::String("asdf134".to_string())])
        )
    );
    assert_eq!(
        word("asdf134 a", WordCtx::DoubleQuoted).unwrap(),
        (
            "",
            Word::Literal(vec![LiteralPart::String("asdf134 a".to_string())])
        )
    );
    assert_eq!(
        word("$123 a", WordCtx::Unquoted(TextCtx::Value)).unwrap(),
        (" a", Word::UnbracedVariable("123".to_string()))
    );
    assert_eq!(
        word("${abc} a", WordCtx::Unquoted(TextCtx::Value)).unwrap(),
        (
            " a",
            Word::BracedVariable(BracedExpansion {
                name: "abc".to_string(),
                modifier: None
            })
        )
    );
    assert_eq!(
        word("${#abc} a", WordCtx::Unquoted(TextCtx::Value)).unwrap(),
        (
            " a",
            Word::BracedVariable(BracedExpansion {
                name: "abc".to_string(),
                modifier: Some(ExpansionModifier::Length)
            })
        )
    );
    word("${#abc:1} a", WordCtx::Unquoted(TextCtx::Value)).unwrap_err();
    word("", WordCtx::Unquoted(TextCtx::Value)).unwrap_err();
    assert_eq!(
        word("${abc:1:2} a", WordCtx::Unquoted(TextCtx::Value)).unwrap(),
        (
            " a",
            Word::BracedVariable(BracedExpansion {
                name: "abc".to_string(),
                modifier: Some(ExpansionModifier::Substring {
                    offset: "1".to_string(),
                    length: Some("2".to_string())
                })
            })
        )
    );
    assert_eq!(
        word("${abc#test?} a", WordCtx::Unquoted(TextCtx::Value)).unwrap(),
        (
            " a",
            Word::BracedVariable(BracedExpansion {
                name: "abc".to_string(),
                modifier: Some(ExpansionModifier::StripShortestPrefix(
                    Box::new(BashPattern(vec![
                        GlobPart::String("test".to_string()),
                        GlobPart::AnyChar
                    ]))
                ))
            })
        )
    );
    assert_eq!(
        word("$(123 ) a", WordCtx::Unquoted(TextCtx::Value)).unwrap(),
        (
            " a",
            Word::Subcommand(vec![
                ArrayToken::Element(Box::new(Text(vec![
                    TextUnit::Unquoted(vec![Word::Literal(vec![
                        LiteralPart::String("123".to_string())
                    ])])
                ]))),
                ArrayToken::Spacy(' ')
            ])
        )
    );
}

#[test]
fn test_literal_part() {
    assert_eq!(
        literal_part("abc a", WordCtx::Unquoted(TextCtx::Value)).unwrap(),
        (" a", LiteralPart::String("abc".to_string()))
    );
    assert_eq!(
        literal_part("abc a", WordCtx::DoubleQuoted).unwrap(),
        ("", LiteralPart::String("abc a".to_string()))
    );
    assert_eq!(
        literal_part("\\na a", WordCtx::Unquoted(TextCtx::Value)).unwrap(),
        ("a a", LiteralPart::Escaped('n'))
    );
    assert_eq!(
        literal_part("\\na a", WordCtx::DoubleQuoted).unwrap(),
        ("a a", LiteralPart::String("\\n".to_string()))
    );
    assert_eq!(
        literal_part("\\\na a", WordCtx::Unquoted(TextCtx::Value)).unwrap(),
        ("a a", LiteralPart::LineContinuation)
    );
}

#[test]
fn test_braced_expansion() {
    assert_eq!(
        braced_expansion("asdf134").unwrap(),
        ("", BracedExpansion {
            name: "asdf134".to_string(),
            modifier: None
        })
    );
    assert_eq!(
        braced_expansion("asdf:10").unwrap(),
        ("", BracedExpansion {
            name: "asdf".to_string(),
            modifier: Some(ExpansionModifier::Substring {
                offset: "10".to_string(),
                length: None
            })
        })
    );
    assert_eq!(
        braced_expansion("#1").unwrap(),
        ("", BracedExpansion {
            name: "1".to_string(),
            modifier: Some(ExpansionModifier::Length)
        })
    );
}

#[test]
fn parser_test_expansion_modifier() {
    assert_eq!(
        expansion_modifier(":10").unwrap(),
        ("", ExpansionModifier::Substring {
            offset: "10".to_string(),
            length: None
        })
    );
    assert_eq!(
        expansion_modifier(":10:1").unwrap(),
        ("", ExpansionModifier::Substring {
            offset: "10".to_string(),
            length: Some("1".to_string())
        })
    );
    assert_eq!(
        expansion_modifier(": -10:-1").unwrap(),
        ("", ExpansionModifier::Substring {
            offset: " -10".to_string(),
            length: Some("-1".to_string())
        })
    );
    expansion_modifier(":").unwrap_err();
    expansion_modifier("1").unwrap_err();
    assert_eq!(
        expansion_modifier("#a*").unwrap(),
        (
            "",
            ExpansionModifier::StripShortestPrefix(Box::new(BashPattern(
                vec![
                    GlobPart::String("a".to_string()),
                    GlobPart::AnyString
                ]
            )))
        )
    );
    assert_eq!(
        expansion_modifier("##a*").unwrap(),
        (
            "",
            ExpansionModifier::StripLongestPrefix(Box::new(BashPattern(
                vec![
                    GlobPart::String("a".to_string()),
                    GlobPart::AnyString
                ]
            )))
        )
    );
    assert_eq!(
        expansion_modifier("%%a*").unwrap(),
        (
            "",
            ExpansionModifier::StripLongestSuffix(Box::new(BashPattern(
                vec![
                    GlobPart::String("a".to_string()),
                    GlobPart::AnyString
                ]
            )))
        )
    );
    assert_eq!(
        expansion_modifier("%a*").unwrap(),
        (
            "",
            ExpansionModifier::StripShortestSuffix(Box::new(BashPattern(
                vec![
                    GlobPart::String("a".to_string()),
                    GlobPart::AnyString
                ]
            )))
        )
    );
    assert_eq!(
        expansion_modifier("/a*/$b}").unwrap(),
        ("}", ExpansionModifier::ReplaceOnce {
            pattern: Box::new(BashPattern(vec![
                GlobPart::String("a".to_string()),
                GlobPart::AnyString
            ])),
            string: Some(Box::new(Text(vec![TextUnit::Unquoted(vec![
                Word::UnbracedVariable("b".to_string())
            ])])))
        })
    );
    assert_eq!(
        expansion_modifier("/a*}").unwrap(),
        ("}", ExpansionModifier::ReplaceOnce {
            pattern: Box::new(BashPattern(vec![
                GlobPart::String("a".to_string()),
                GlobPart::AnyString
            ])),
            string: None
        })
    );
    assert_eq!(
        expansion_modifier("//a*/$b}").unwrap(),
        ("}", ExpansionModifier::ReplaceAll {
            pattern: Box::new(BashPattern(vec![
                GlobPart::String("a".to_string()),
                GlobPart::AnyString
            ])),
            string: Some(Box::new(Text(vec![TextUnit::Unquoted(vec![
                Word::UnbracedVariable("b".to_string())
            ])])))
        })
    );
    assert_eq!(
        expansion_modifier("//a*}").unwrap(),
        ("}", ExpansionModifier::ReplaceAll {
            pattern: Box::new(BashPattern(vec![
                GlobPart::String("a".to_string()),
                GlobPart::AnyString
            ])),
            string: None
        })
    );
    assert_eq!(
        expansion_modifier("/#a*/$b}").unwrap(),
        ("}", ExpansionModifier::ReplacePrefix {
            pattern: Box::new(BashPattern(vec![
                GlobPart::String("a".to_string()),
                GlobPart::AnyString
            ])),
            string: Some(Box::new(Text(vec![TextUnit::Unquoted(vec![
                Word::UnbracedVariable("b".to_string())
            ])])))
        })
    );
    assert_eq!(
        expansion_modifier("/#a*}").unwrap(),
        ("}", ExpansionModifier::ReplacePrefix {
            pattern: Box::new(BashPattern(vec![
                GlobPart::String("a".to_string()),
                GlobPart::AnyString
            ])),
            string: None
        })
    );
    assert_eq!(
        expansion_modifier("/%a*/$b}").unwrap(),
        ("}", ExpansionModifier::ReplaceSuffix {
            pattern: Box::new(BashPattern(vec![
                GlobPart::String("a".to_string()),
                GlobPart::AnyString
            ])),
            string: Some(Box::new(Text(vec![TextUnit::Unquoted(vec![
                Word::UnbracedVariable("b".to_string())
            ])])))
        })
    );
    assert_eq!(
        expansion_modifier("/%a*}").unwrap(),
        ("}", ExpansionModifier::ReplaceSuffix {
            pattern: Box::new(BashPattern(vec![
                GlobPart::String("a".to_string()),
                GlobPart::AnyString
            ])),
            string: None
        })
    );
    assert_eq!(
        expansion_modifier("^a*}").unwrap(),
        (
            "}",
            ExpansionModifier::UpperOnce(Box::new(BashPattern(vec![
                GlobPart::String("a".to_string()),
                GlobPart::AnyString
            ])))
        )
    );
    assert_eq!(
        expansion_modifier("^^a*}").unwrap(),
        (
            "}",
            ExpansionModifier::UpperAll(Box::new(BashPattern(vec![
                GlobPart::String("a".to_string()),
                GlobPart::AnyString
            ])))
        )
    );
    assert_eq!(
        expansion_modifier(",a*}").unwrap(),
        (
            "}",
            ExpansionModifier::LowerOnce(Box::new(BashPattern(vec![
                GlobPart::String("a".to_string()),
                GlobPart::AnyString
            ])))
        )
    );
    assert_eq!(
        expansion_modifier(",,a*}").unwrap(),
        (
            "}",
            ExpansionModifier::LowerAll(Box::new(BashPattern(vec![
                GlobPart::String("a".to_string()),
                GlobPart::AnyString
            ])))
        )
    );
    assert_eq!(
        expansion_modifier("^a*}").unwrap(),
        (
            "}",
            ExpansionModifier::UpperOnce(Box::new(BashPattern(vec![
                GlobPart::String("a".to_string()),
                GlobPart::AnyString
            ])))
        )
    );
    assert_eq!(
        expansion_modifier(":?a$a}").unwrap(),
        (
            "}",
            ExpansionModifier::ErrorOnUnset(Box::new(Text(vec![
                TextUnit::Unquoted(vec![
                    Word::Literal(vec![LiteralPart::String(
                        "a".to_string()
                    )]),
                    Word::UnbracedVariable("a".to_string()),
                ])
            ])))
        )
    );
    assert_eq!(
        expansion_modifier(":-a${a}}").unwrap(),
        (
            "}",
            ExpansionModifier::WhenUnset(Box::new(Text(vec![
                TextUnit::Unquoted(vec![
                    Word::Literal(vec![LiteralPart::String(
                        "a".to_string()
                    )]),
                    Word::BracedVariable(BracedExpansion {
                        name: "a".to_string(),
                        modifier: None,
                    }),
                ])
            ])))
        )
    );
    assert_eq!(
        expansion_modifier(":+a${#a}}").unwrap(),
        (
            "}",
            ExpansionModifier::WhenSet(Box::new(Text(vec![
                TextUnit::Unquoted(vec![
                    Word::Literal(vec![LiteralPart::String(
                        "a".to_string()
                    )]),
                    Word::BracedVariable(BracedExpansion {
                        name: "a".to_string(),
                        modifier: Some(ExpansionModifier::Length),
                    }),
                ])
            ])))
        )
    );
    assert_eq!(
        expansion_modifier("[@]}").unwrap(),
        ("}", ExpansionModifier::ArrayElements)
    );
    assert_eq!(
        expansion_modifier("[*]}").unwrap(),
        ("}", ExpansionModifier::SingleWordElements)
    );
}

#[test]
fn test_substring_expansion_modifier() {
    assert_eq!(
        substring_expansion_modifier(":10").unwrap(),
        ("", ExpansionModifier::Substring {
            offset: "10".to_string(),
            length: None
        })
    );
    assert_eq!(
        substring_expansion_modifier(":10:1").unwrap(),
        ("", ExpansionModifier::Substring {
            offset: "10".to_string(),
            length: Some("1".to_string())
        })
    );
    assert_eq!(
        substring_expansion_modifier(": -10:1").unwrap(),
        ("", ExpansionModifier::Substring {
            offset: " -10".to_string(),
            length: Some("1".to_string())
        })
    );
    substring_expansion_modifier(":").unwrap_err();
    substring_expansion_modifier("1").unwrap_err();
}

#[test]
fn test_spacy_char() {
    assert_eq!(spacy_char(" ").unwrap(), ("", ' '));
    assert_eq!(spacy_char("\t").unwrap(), ("", '\t'));
    assert_eq!(spacy_char("\ta").unwrap(), ("a", '\t'));
    spacy_char("\n").unwrap_err();
}
