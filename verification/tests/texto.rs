use elenco::leitura::{comando, interpreta, Leitura};
use elenco::texto::{apara, letras, numero, separa};
use elenco::{jogador, parse_jogadores, tenta_parse_jogadores, ErroLeitura};

fn texto(s: &str) -> Vec<char> {
    s.chars().collect()
}

#[test]
fn letras_gives_every_character() {
    assert_eq!(letras(""), Vec::<char>::new());
    assert_eq!(letras("t 89 87"), vec!['t', ' ', '8', '9', ' ', '8', '7']);
    assert_eq!(letras("m\u{e9}dia"), vec!['m', '\u{e9}', 'd', 'i', 'a']);
}

#[test]
fn apara_drops_white_space_at_both_ends_only() {
    assert_eq!(apara(&texto("  a 5 \n")), texto("a 5"));
    assert_eq!(apara(&texto("\t\r\n89\u{a0}\u{3000}")), texto("89"));
    assert_eq!(apara(&texto("a  5")), texto("a  5"));
    assert_eq!(apara(&texto("")), texto(""));
    assert_eq!(apara(&texto(" \t \n")), texto(""));
    assert_eq!(apara(&texto("q")), texto("q"));
}

#[test]
fn apara_agrees_with_the_standard_trim() {
    for s in ["", " ", "a", " a", "a ", " a b ", "\n\t a\u{2003}\u{85}", "\u{200b}a\u{200b}", "\u{1680}x\u{2028}\u{2029}\u{202f}\u{205f}", "\u{feff}x", "\u{180e}x"] {
        assert_eq!(apara(&texto(s)), texto(s.trim()), "{:?}", s);
    }
}

#[test]
fn separa_agrees_with_the_standard_split() {
    for s in ["", " ", "a", "a b", "a  b", " a b ", "t 89 87", "   ", "a\tb c"] {
        let campos: Vec<Vec<char>> = s.split(' ').map(texto).collect();
        assert_eq!(separa(&texto(s)), campos, "{:?}", s);
    }
}

#[test]
fn separa_ends_a_field_at_every_space() {
    assert_eq!(separa(&texto("84 3")), vec![texto("84"), texto("3")]);
    assert_eq!(separa(&texto("84")), vec![texto("84")]);
    assert_eq!(separa(&texto("")), vec![texto("")]);
    assert_eq!(separa(&texto("a  5")), vec![texto("a"), texto(""), texto("5")]);
    assert_eq!(separa(&texto(" a ")), vec![texto(""), texto("a"), texto("")]);
    assert_eq!(separa(&texto("a\t5")), vec![texto("a\t5")]);
}

#[test]
fn numero_reads_decimal_digits() {
    assert_eq!(numero(&texto("0")), Some(0));
    assert_eq!(numero(&texto("89")), Some(89));
    assert_eq!(numero(&texto("007")), Some(7));
    assert_eq!(numero(&texto("+5")), Some(5));
    assert_eq!(numero(&texto(&usize::MAX.to_string())), Some(usize::MAX));
    assert_eq!(numero(&texto(&format!("000{}", usize::MAX))), Some(usize::MAX));
}

#[test]
fn numero_refuses_what_is_not_a_number() {
    assert_eq!(numero(&texto("")), None);
    assert_eq!(numero(&texto("+")), None);
    assert_eq!(numero(&texto("-5")), None);
    assert_eq!(numero(&texto("++5")), None);
    assert_eq!(numero(&texto("5+")), None);
    assert_eq!(numero(&texto("5a")), None);
    assert_eq!(numero(&texto(" 5")), None);
    assert_eq!(numero(&texto("8_9")), None);
    assert_eq!(numero(&texto("\u{663}")), None);
    assert_eq!(numero(&texto(&format!("{}0", usize::MAX))), None);
    assert_eq!(numero(&texto(&format!("{}", usize::MAX as u128 + 1))), None);
    assert_eq!(numero(&texto(&format!("{}x", usize::MAX as u128 + 1))), None);
}

#[test]
fn numero_agrees_with_the_standard_parser() {
    let maximo = usize::MAX.to_string();
    for s in ["", "+", "-", "0", "+0", "-0", "12", "+12", "1 2", "12 ", "١٢", "99999999999999999999999", maximo.as_str()] {
        assert_eq!(numero(&texto(s)), s.parse::<usize>().ok(), "{:?}", s);
    }
}

#[test]
fn interpreta_reads_each_request() {
    assert_eq!(interpreta("a 90"), Leitura::AdicionaJogador(90));
    assert_eq!(interpreta("r 88"), Leitura::RemoveJogador(88));
    assert_eq!(interpreta("t 89 87"), Leitura::TrocaJogador(89, 87));
    assert_eq!(interpreta("q"), Leitura::Quit);
    assert_eq!(interpreta("  a 90\n"), Leitura::AdicionaJogador(90));
    assert_eq!(interpreta("q\r\n"), Leitura::Quit);
    assert_eq!(interpreta("a 5 6"), Leitura::AdicionaJogador(5));
    assert_eq!(interpreta("t 1 2 3"), Leitura::TrocaJogador(1, 2));
    assert_eq!(interpreta("q agora"), Leitura::Quit);
}

#[test]
fn interpreta_takes_anything_else_for_nothing() {
    assert_eq!(interpreta(""), Leitura::Nenhuma);
    assert_eq!(interpreta("\n"), Leitura::Nenhuma);
    assert_eq!(interpreta("x"), Leitura::Nenhuma);
    assert_eq!(interpreta("A 5"), Leitura::Nenhuma);
    assert_eq!(interpreta("add 5"), Leitura::Nenhuma);
    assert_eq!(interpreta("90"), Leitura::Nenhuma);
    assert_eq!(interpreta("a"), Leitura::Nenhuma);
    assert_eq!(interpreta("r"), Leitura::Nenhuma);
    assert_eq!(interpreta("t"), Leitura::Nenhuma);
    assert_eq!(interpreta("a x"), Leitura::Nenhuma);
    assert_eq!(interpreta("a  5"), Leitura::Nenhuma);
    assert_eq!(interpreta("a\t5"), Leitura::Nenhuma);
    assert_eq!(interpreta("t 5"), Leitura::Nenhuma);
    assert_eq!(interpreta("t 5 x"), Leitura::Nenhuma);
    assert_eq!(interpreta("t x 5"), Leitura::Nenhuma);
    assert_eq!(interpreta("qq"), Leitura::Nenhuma);
}

#[test]
fn comando_reads_fields() {
    assert_eq!(comando(&vec![texto("a"), texto("90")]), Leitura::AdicionaJogador(90));
    assert_eq!(comando(&vec![texto("t"), texto("1"), texto("2")]), Leitura::TrocaJogador(1, 2));
    assert_eq!(comando(&vec![texto("t"), texto("1")]), Leitura::Nenhuma);
    assert_eq!(comando(&vec![texto("q")]), Leitura::Quit);
    assert_eq!(comando(&vec![texto("")]), Leitura::Nenhuma);
    assert_eq!(comando(&vec![texto(" a"), texto("90")]), Leitura::Nenhuma);
}

#[test]
fn jogador_reads_a_rating_and_a_count() {
    assert_eq!(jogador("89"), Ok((89, 1)));
    assert_eq!(jogador("84 3"), Ok((84, 3)));
    assert_eq!(jogador("84 3\n"), Ok((84, 3)));
    assert_eq!(jogador(" 84 0 x "), Ok((84, 0)));
    assert_eq!(jogador("x"), Err(ErroLeitura::PrimeiroArgumento));
    assert_eq!(jogador("x y"), Err(ErroLeitura::PrimeiroArgumento));
    assert_eq!(jogador(" "), Err(ErroLeitura::PrimeiroArgumento));
    assert_eq!(jogador("84 x"), Err(ErroLeitura::SegundoArgumento));
    assert_eq!(jogador("84  3"), Err(ErroLeitura::SegundoArgumento));
}

#[test]
fn parse() {
    let jogadores = vec!["89".to_string(), "90".to_string(), "87".to_string(), "84 3".to_string()];
    assert_eq!(vec![89, 90, 87, 84, 84, 84], parse_jogadores(&jogadores));
}

#[test]
fn parse_jogadores_passes_over_empty_lines() {
    let jogadores = vec!["".to_string(), "70 2\n".to_string(), "".to_string(), "5 0".to_string()];
    assert_eq!(parse_jogadores(&jogadores), vec![70, 70]);
    assert_eq!(parse_jogadores(&[]), Vec::<usize>::new());
}

#[test]
fn tenta_parse_jogadores_gives_the_ratings() {
    let jogadores = vec!["89".to_string(), "90".to_string(), "87".to_string(), "84 3".to_string()];
    assert_eq!(tenta_parse_jogadores(&jogadores), Ok(vec![89, 90, 87, 84, 84, 84]));
    assert_eq!(tenta_parse_jogadores(&[]), Ok(vec![]));
}

#[test]
fn tenta_parse_jogadores_gives_the_first_error() {
    let primeiro = vec!["89".to_string(), "oitenta".to_string(), "84 x".to_string()];
    assert_eq!(tenta_parse_jogadores(&primeiro), Err(ErroLeitura::PrimeiroArgumento));
    let segundo = vec!["89".to_string(), "84 x".to_string(), "oitenta".to_string()];
    assert_eq!(tenta_parse_jogadores(&segundo), Err(ErroLeitura::SegundoArgumento));
    let so_brancos = vec!["89".to_string(), " ".to_string()];
    assert_eq!(tenta_parse_jogadores(&so_brancos), Err(ErroLeitura::PrimeiroArgumento));
}
